//! The tokenizer, the assignment recognizer, and the infix-to-postfix
//! converter.
//!
//! The tokenizer scans an expression left to right with longest match per
//! category; the one ambiguity, a minus sign, is read as the start of a
//! negative number literal exactly when it is the first token or follows an
//! operator or a left parenthesis, and is then fused into the literal. The
//! converter rewrites the token sequence into postfix order with the
//! Shunting Yard algorithm. Each function's contract equates its result with
//! a specification-level rewrite of the input character or token sequence.

use vstd::prelude::*;

use crate::errors::{CalcError, ErrorKind};
use crate::operators::Operator;
use crate::strutil::{
    digit_char, ident_char, is_digit_char, is_ident_char, is_letter_char, is_space_char,
    letter_char, space_char, spec_trim, str_eq, trim,
};
use crate::tokens::{clone_token, token_views, Num, Token, TokenView};
use crate::varstore::VarStore;

verus! {

/// Whether the name denotes one of the two built-in constants.
pub open spec fn is_constant_name(s: Seq<char>) -> bool {
    s == "pi"@ || s == "e"@
}

/// Whether the name denotes one of the six built-in functions.
pub open spec fn is_function_name(s: Seq<char>) -> bool {
    s == "sin"@ || s == "cos"@ || s == "tan"@ || s == "log"@ || s == "ln"@ || s == "sqrt"@
}

/// Whether the name is reserved: a built-in constant or function.
pub open spec fn is_reserved_name(s: Seq<char>) -> bool {
    is_constant_name(s) || is_function_name(s)
}

/// Whether the name denotes one of the two built-in constants.
pub fn constant_name(s: &str) -> (r: bool)
    ensures
        r == is_constant_name(s@),
{
    str_eq(s, "pi") || str_eq(s, "e")
}

/// Whether the name denotes one of the six built-in functions.
pub fn function_name(s: &str) -> (r: bool)
    ensures
        r == is_function_name(s@),
{
    str_eq(s, "sin") || str_eq(s, "cos") || str_eq(s, "tan") || str_eq(s, "log") || str_eq(s, "ln")
        || str_eq(s, "sqrt")
}

/// Whether the name is reserved: a built-in constant or function.
pub fn reserved_name(s: &str) -> (r: bool)
    ensures
        r == is_reserved_name(s@),
{
    constant_name(s) || function_name(s)
}

/// The end of the maximal run of digits and decimal points starting at `i`.
pub open spec fn spec_num_end(s: Seq<char>, i: int) -> int
    decreases s.len() - i,
{
    if 0 <= i < s.len() && (is_digit_char(s[i]) || s[i] == '.') {
        spec_num_end(s, i + 1)
    } else {
        i
    }
}

/// The end of the maximal run of identifier characters starting at `i`.
pub open spec fn spec_ident_end(s: Seq<char>, i: int) -> int
    decreases s.len() - i,
{
    if 0 <= i < s.len() && is_ident_char(s[i]) {
        spec_ident_end(s, i + 1)
    } else {
        i
    }
}

proof fn lemma_num_end_range(s: Seq<char>, i: int)
    requires
        0 <= i <= s.len(),
    ensures
        i <= spec_num_end(s, i) <= s.len(),
    decreases s.len() - i,
{
    if i < s.len() && (is_digit_char(s[i]) || s[i] == '.') {
        lemma_num_end_range(s, i + 1);
    }
}

proof fn lemma_ident_end_range(s: Seq<char>, i: int)
    requires
        0 <= i <= s.len(),
    ensures
        i <= spec_ident_end(s, i) <= s.len(),
    decreases s.len() - i,
{
    if i < s.len() && is_ident_char(s[i]) {
        lemma_ident_end_range(s, i + 1);
    }
}

/// The number of decimal points in the sequence.
pub open spec fn dot_count(s: Seq<char>) -> nat
    decreases s.len(),
{
    if s.len() == 0 {
        0
    } else {
        dot_count(s.drop_last()) + if s.last() == '.' {
            1nat
        } else {
            0nat
        }
    }
}

proof fn lemma_dot_count_concat(a: Seq<char>, b: Seq<char>)
    ensures
        dot_count(a + b) == dot_count(a) + dot_count(b),
    decreases b.len(),
{
    if b.len() == 0 {
        assert(a + b =~= a);
    } else {
        assert((a + b).drop_last() =~= a + b.drop_last());
        lemma_dot_count_concat(a, b.drop_last());
        assert((a + b).last() == b.last());
    }
}

/// The result of scanning a numeric literal at `i`: the literal and its end,
/// or the error the malformed literal earns.
pub open spec fn spec_number_scan(s: Seq<char>, i: int) -> Result<
    (Seq<char>, int),
    (ErrorKind, Seq<char>),
> {
    let end = spec_num_end(s, i);
    let seg = s.subrange(i, end);
    if dot_count(seg) >= 2 {
        Err((ErrorKind::Syntax, "Multiple decimal points in number"@))
    } else if seg.len() == 0 || seg == seq!['.'] {
        Err((ErrorKind::Syntax, "Invalid number format"@))
    } else {
        Ok((seg, end))
    }
}

/// Scans the numeric literal starting at `start`: the maximal run of digits
/// and decimal points. Returns the literal and the index just past it, or
/// the error for a second decimal point or an empty or lone-point literal.
pub fn parse_number_string(s: &str, start: usize) -> (r: Result<(String, usize), CalcError>)
    requires
        start as int <= s@.len(),
    ensures
        match r {
            Ok(p) => {
                &&& spec_number_scan(s@, start as int) == Ok::<
                    (Seq<char>, int),
                    (ErrorKind, Seq<char>),
                >((p.0@, p.1 as int))
                &&& start <= p.1 <= s@.len()
            },
            Err(e) => spec_number_scan(s@, start as int) == Err::<
                (Seq<char>, int),
                (ErrorKind, Seq<char>),
            >(e@),
        },
{
    let len = s.unicode_len();
    let ghost end = spec_num_end(s@, start as int);
    proof {
        lemma_num_end_range(s@, start as int);
    }
    let mut i: usize = start;
    let mut has_decimal = false;
    loop
        invariant
            len == s@.len(),
            start <= i <= len,
            end == spec_num_end(s@, start as int),
            spec_num_end(s@, i as int) == end,
            dot_count(s@.subrange(start as int, i as int)) == if has_decimal {
                1nat
            } else {
                0nat
            },
        ensures
            start <= i <= len,
            end == i as int,
            dot_count(s@.subrange(start as int, i as int)) == if has_decimal {
                1nat
            } else {
                0nat
            },
        decreases len - i,
    {
        if i >= len {
            break ;
        }
        let c = s.get_char(i);
        if digit_char(c) {
            proof {
                assert(s@.subrange(start as int, i + 1).drop_last() =~= s@.subrange(
                    start as int,
                    i as int,
                ));
            }
            i = i + 1;
        } else if c == '.' {
            if has_decimal {
                proof {
                    lemma_num_end_range(s@, i + 1);
                    assert(end == spec_num_end(s@, i + 1));
                    let seg = s@.subrange(start as int, end);
                    assert(seg =~= s@.subrange(start as int, i as int) + s@.subrange(
                        i as int,
                        i + 1,
                    ) + s@.subrange(i + 1, end));
                    lemma_dot_count_concat(
                        s@.subrange(start as int, i as int) + s@.subrange(i as int, i + 1),
                        s@.subrange(i + 1, end),
                    );
                    lemma_dot_count_concat(
                        s@.subrange(start as int, i as int),
                        s@.subrange(i as int, i + 1),
                    );
                    let unit = s@.subrange(i as int, i + 1);
                    assert(unit.len() == 1);
                    assert(unit.last() == s@[i as int]);
                    assert(s@[i as int] == '.');
                    assert(dot_count(unit.drop_last()) == 0) by {
                        assert(unit.drop_last() =~= Seq::<char>::empty());
                    }
                    assert(dot_count(unit) == 1);
                    assert(dot_count(seg) >= 2);
                }
                return Err(CalcError::from_parts(
                    ErrorKind::Syntax,
                    "Multiple decimal points in number",
                ));
            }
            proof {
                assert(s@.subrange(start as int, i + 1).drop_last() =~= s@.subrange(
                    start as int,
                    i as int,
                ));
            }
            has_decimal = true;
            i = i + 1;
        } else {
            break ;
        }
    }
    let ghost seg = s@.subrange(start as int, end);
    proof {
        assert(seg =~= s@.subrange(start as int, i as int));
    }
    if i == start {
        assert(seg.len() == 0);
        return Err(CalcError::from_parts(ErrorKind::Syntax, "Invalid number format"));
    }
    if i == start + 1 && has_decimal {
        proof {
            assert(seg.len() == 1);
            assert(dot_count(seg.drop_last()) == 0) by {
                assert(seg.drop_last() =~= Seq::<char>::empty());
            }
            assert(dot_count(seg) == 1);
            assert(seg.last() == '.');
            assert(seg =~= seq!['.']);
        }
        return Err(CalcError::from_parts(ErrorKind::Syntax, "Invalid number format"));
    }
    proof {
        if seg == seq!['.'] {
            assert(seg.len() == 1);
            assert(dot_count(seg.drop_last()) == 0) by {
                assert(seg.drop_last() =~= Seq::<char>::empty());
            }
            assert(seg.last() == '.');
            assert(dot_count(seg) == 1);
        }
    }
    let lit = String::from_str(s.substring_char(start, i));
    Ok((lit, i))
}

/// Scans the identifier starting at `start`: the maximal run of letters,
/// digits and underscores. Returns the identifier and the index just past it.
pub fn parse_identifier(s: &str, start: usize) -> (r: (String, usize))
    requires
        start as int <= s@.len(),
    ensures
        r.1 as int == spec_ident_end(s@, start as int),
        r.0@ == s@.subrange(start as int, r.1 as int),
        start <= r.1 <= s@.len(),
{
    let len = s.unicode_len();
    let mut i: usize = start;
    while i < len && ident_char(s.get_char(i))
        invariant
            len == s@.len(),
            start <= i <= len,
            spec_ident_end(s@, i as int) == spec_ident_end(s@, start as int),
        decreases len - i,
    {
        i = i + 1;
    }
    (String::from_str(s.substring_char(start, i)), i)
}

/// Whether the name matches the identifier grammar: a leading ASCII letter,
/// then letters, digits or underscores.
pub open spec fn spec_valid_variable_name(s: Seq<char>) -> bool {
    s.len() > 0 && is_letter_char(s[0]) && (forall|j: int| 1 <= j < s.len() ==> is_ident_char(s[j]))
}

/// Checks whether a string is a valid variable name.
pub fn is_valid_variable_name(name: &str) -> (r: bool)
    ensures
        r == spec_valid_variable_name(name@),
{
    let len = name.unicode_len();
    if len == 0 {
        return false;
    }
    if !letter_char(name.get_char(0)) {
        return false;
    }
    let mut j: usize = 1;
    while j < len
        invariant
            len == name@.len(),
            1 <= j <= len,
            forall|x: int| 1 <= x < j ==> is_ident_char(name@[x]),
        decreases len - j,
    {
        if !ident_char(name.get_char(j)) {
            return false;
        }
        j = j + 1;
    }
    true
}

/// The index of the first occurrence of `c` at or after `i`, or the length
/// if there is none.
pub open spec fn spec_find_char(s: Seq<char>, c: char, i: int) -> int
    decreases s.len() - i,
{
    if i < 0 || i >= s.len() {
        s.len() as int
    } else if s[i] == c {
        i
    } else {
        spec_find_char(s, c, i + 1)
    }
}

proof fn lemma_find_char_range(s: Seq<char>, c: char, i: int)
    requires
        0 <= i <= s.len(),
    ensures
        i <= spec_find_char(s, c, i) <= s.len(),
    decreases s.len() - i,
{
    if i < s.len() && s[i] != c {
        lemma_find_char_range(s, c, i + 1);
    }
}

/// What the assignment recognizer yields on an expression: no assignment,
/// the name and right-hand side of one, or a validation error.
pub open spec fn spec_parse_assignment(s0: Seq<char>) -> Result<
    Option<(Seq<char>, Seq<char>)>,
    (ErrorKind, Seq<char>),
> {
    let s = spec_trim(s0);
    let k = spec_find_char(s, '=', 0);
    if k == s.len() {
        Ok(None)
    } else {
        let name = spec_trim(s.subrange(0, k));
        let rhs = spec_trim(s.subrange(k + 1, s.len() as int));
        if name.len() == 0 {
            Err((ErrorKind::Assignment, "Assignment requires a variable name"@))
        } else if !spec_valid_variable_name(name) {
            Err((ErrorKind::Assignment, "Invalid variable name: '"@ + name + "'"@))
        } else if is_reserved_name(name) {
            Err((ErrorKind::Assignment, "Cannot assign to reserved name: '"@ + name + "'"@))
        } else if rhs.len() == 0 {
            Err((ErrorKind::Assignment, "Assignment requires a value"@))
        } else {
            Ok(Some((name, rhs)))
        }
    }
}

/// Recognizes `name = expression` syntax. Returns the variable name and the
/// right-hand side when the first `=` splits the trimmed input that way,
/// `None` when there is no `=`, and a validation error for an empty or
/// ill-formed name, a reserved name, or an empty right-hand side.
pub fn parse_assignment(expression: &str) -> (r: Result<Option<(String, String)>, CalcError>)
    ensures
        match r {
            Ok(Some(p)) => spec_parse_assignment(expression@) == Ok::<
                Option<(Seq<char>, Seq<char>)>,
                (ErrorKind, Seq<char>),
            >(Some((p.0@, p.1@))),
            Ok(None) => spec_parse_assignment(expression@) == Ok::<
                Option<(Seq<char>, Seq<char>)>,
                (ErrorKind, Seq<char>),
            >(None),
            Err(e) => spec_parse_assignment(expression@) == Err::<
                Option<(Seq<char>, Seq<char>)>,
                (ErrorKind, Seq<char>),
            >(e@),
        },
{
    let s = trim(expression);
    let len = s.unicode_len();
    let mut k: usize = 0;
    while k < len && s.get_char(k) != '='
        invariant
            len == s@.len(),
            0 <= k <= len,
            spec_find_char(s@, '=', 0) == spec_find_char(s@, '=', k as int),
        decreases len - k,
    {
        k = k + 1;
    }
    assert(spec_find_char(s@, '=', 0) == k as int);
    if k == len {
        return Ok(None);
    }
    let name = trim(s.substring_char(0, k));
    let rhs = trim(s.substring_char(k + 1, len));
    if name.unicode_len() == 0 {
        return Err(CalcError::from_parts(ErrorKind::Assignment, "Assignment requires a variable name"));
    }
    if !is_valid_variable_name(name) {
        let msg = String::from_str("Invalid variable name: '").concat(name).concat("'");
        return Err(CalcError::new(ErrorKind::Assignment, msg));
    }
    if reserved_name(name) {
        let msg = String::from_str("Cannot assign to reserved name: '").concat(name).concat("'");
        return Err(CalcError::new(ErrorKind::Assignment, msg));
    }
    if rhs.unicode_len() == 0 {
        return Err(CalcError::from_parts(ErrorKind::Assignment, "Assignment requires a value"));
    }
    Ok(Some((String::from_str(name), String::from_str(rhs))))
}


/// The operator denoted by one of the characters `+ * / % ^`.
pub open spec fn spec_op_char(c: char) -> Operator {
    if c == '+' {
        Operator::Add
    } else if c == '*' {
        Operator::Multiply
    } else if c == '/' {
        Operator::Divide
    } else if c == '%' {
        Operator::Modulo
    } else {
        Operator::Power
    }
}

/// The variable mapping a tokenizer mode carries: none for the stateless
/// form, the store's mapping for the substituting form.
pub open spec fn vars_view(v: Option<&VarStore>) -> Option<Map<Seq<char>, u64>> {
    match v {
        Some(st) => Some(st@),
        None => None,
    }
}

/// The token sequence the scanner yields from position `i` on, having
/// already produced `acc`; `vars` is the variable mapping of the
/// substituting form, or `None` for the stateless form.
pub open spec fn spec_tokenize_from(
    s: Seq<char>,
    i: int,
    acc: Seq<TokenView>,
    vars: Option<Map<Seq<char>, u64>>,
) -> Result<Seq<TokenView>, (ErrorKind, Seq<char>)>
    decreases s.len() - i,
    via spec_tokenize_from_dec
{
    if i < 0 || i >= s.len() {
        Ok(acc)
    } else {
        let c = s[i];
        if is_space_char(c) {
            spec_tokenize_from(s, i + 1, acc, vars)
        } else if c == '(' {
            spec_tokenize_from(s, i + 1, acc.push(TokenView::LeftParen), vars)
        } else if c == ')' {
            spec_tokenize_from(s, i + 1, acc.push(TokenView::RightParen), vars)
        } else if c == '!' {
            spec_tokenize_from(s, i + 1, acc.push(TokenView::Factorial), vars)
        } else if c == '+' || c == '*' || c == '/' || c == '%' || c == '^' {
            spec_tokenize_from(s, i + 1, acc.push(TokenView::Operator(spec_op_char(c))), vars)
        } else if c == '-' {
            if acc.len() == 0 || acc.last() is Operator || acc.last() is LeftParen {
                match spec_number_scan(s, i + 1) {
                    Ok(p) => spec_tokenize_from(
                        s,
                        p.1,
                        acc.push(TokenView::Number(seq!['-'] + p.0)),
                        vars,
                    ),
                    Err(e) => Err(e),
                }
            } else {
                spec_tokenize_from(
                    s,
                    i + 1,
                    acc.push(TokenView::Operator(Operator::Subtract)),
                    vars,
                )
            }
        } else if is_digit_char(c) || c == '.' {
            match spec_number_scan(s, i) {
                Ok(p) => spec_tokenize_from(s, p.1, acc.push(TokenView::Number(p.0)), vars),
                Err(e) => Err(e),
            }
        } else if is_letter_char(c) || (vars is Some && c == '_') {
            let end = spec_ident_end(s, i);
            let ident = s.subrange(i, end);
            if is_constant_name(ident) {
                spec_tokenize_from(s, end, acc.push(TokenView::Constant(ident)), vars)
            } else if is_function_name(ident) {
                spec_tokenize_from(s, end, acc.push(TokenView::Function(ident)), vars)
            } else {
                match vars {
                    Option::None => Err(
                        (ErrorKind::Syntax, "Unknown identifier: '"@ + ident + "'"@),
                    ),
                    Option::Some(m) => if m.contains_key(ident) {
                        spec_tokenize_from(s, end, acc.push(TokenView::Value(m[ident])), vars)
                    } else {
                        Err((ErrorKind::UndefinedVariable, "Undefined variable: '"@ + ident + "'"@))
                    },
                }
            }
        } else {
            Err((ErrorKind::Syntax, "Invalid character in expression: '"@ + seq![c] + "'"@))
        }
    }
}

#[via_fn]
proof fn spec_tokenize_from_dec(
    s: Seq<char>,
    i: int,
    acc: Seq<TokenView>,
    vars: Option<Map<Seq<char>, u64>>,
) {
    if 0 <= i < s.len() {
        lemma_num_end_range(s, i);
        lemma_num_end_range(s, i + 1);
        lemma_ident_end_range(s, i);
        if is_ident_char(s[i]) {
            lemma_ident_end_range(s, i + 1);
            assert(spec_ident_end(s, i) == spec_ident_end(s, i + 1));
        }
    }
}

/// The scanner's result on a whole expression.
pub open spec fn spec_tokenize(s: Seq<char>, vars: Option<Map<Seq<char>, u64>>) -> Result<
    Seq<TokenView>,
    (ErrorKind, Seq<char>),
> {
    spec_tokenize_from(s, 0, Seq::empty(), vars)
}

proof fn lemma_token_views_push(s: Seq<Token>, t: Token)
    ensures
        token_views(s.push(t)) =~= token_views(s).push(t@),
{
    assert forall|j: int| 0 <= j < s.len() + 1 implies token_views(s.push(t))[j] == token_views(
        s,
    ).push(t@)[j] by {
        if j < s.len() {
            assert(s.push(t)[j] == s[j]);
        }
    }
}

fn tokenize_impl(s: &str, vars: Option<&VarStore>) -> (r: Result<Vec<Token>, CalcError>)
    requires
        match vars {
            Some(st) => st.wf(),
            None => true,
        },
    ensures
        match r {
            Ok(toks) => spec_tokenize(s@, vars_view(vars)) == Ok::<
                Seq<TokenView>,
                (ErrorKind, Seq<char>),
            >(token_views(toks@)),
            Err(e) => spec_tokenize(s@, vars_view(vars)) == Err::<
                Seq<TokenView>,
                (ErrorKind, Seq<char>),
            >(e@),
        },
{
    let len = s.unicode_len();
    let ghost vm = vars_view(vars);
    let mut tokens: Vec<Token> = Vec::new();
    let mut i: usize = 0;
    proof {
        assert(token_views(tokens@) =~= Seq::<TokenView>::empty());
    }
    while i < len
        invariant
            len == s@.len(),
            0 <= i <= len,
            match vars {
                Some(st) => st.wf(),
                None => true,
            },
            vm == vars_view(vars),
            spec_tokenize(s@, vm) == spec_tokenize_from(s@, i as int, token_views(tokens@), vm),
        decreases len - i,
    {
        let ghost pre = token_views(tokens@);
        let c = s.get_char(i);
        if space_char(c) {
            i = i + 1;
        } else if c == '(' {
            proof {
                lemma_token_views_push(tokens@, Token::LeftParen);
            }
            tokens.push(Token::LeftParen);
            i = i + 1;
        } else if c == ')' {
            proof {
                lemma_token_views_push(tokens@, Token::RightParen);
            }
            tokens.push(Token::RightParen);
            i = i + 1;
        } else if c == '!' {
            proof {
                lemma_token_views_push(tokens@, Token::Factorial);
            }
            tokens.push(Token::Factorial);
            i = i + 1;
        } else if c == '+' || c == '*' || c == '/' || c == '%' || c == '^' {
            if let Some(op) = Operator::from_char(c) {
                proof {
                    assert(op == spec_op_char(c));
                    lemma_token_views_push(tokens@, Token::Operator(op));
                }
                tokens.push(Token::Operator(op));
            } else {
                proof {
                    assert(false);
                }
            }
            i = i + 1;
        } else if c == '-' {
            let is_negative_number = tokens.len() == 0 || {
                let last = &tokens[tokens.len() - 1];
                match last {
                    Token::Operator(_) => true,
                    Token::LeftParen => true,
                    _ => false,
                }
            };
            proof {
                if tokens@.len() > 0 {
                    assert(pre.last() == tokens@.last()@);
                }
            }
            if is_negative_number {
                match parse_number_string(s, i + 1) {
                    Ok((lit, end)) => {
                        proof {
                            assert(lit@.len() > 0);
                            assert(end > i);
                        }
                        let neg = String::from_str("-").concat(lit.as_str());
                        proof {
                            reveal_strlit("-");
                            assert(neg@ =~= seq!['-'] + lit@);
                            lemma_token_views_push(tokens@, Token::Number(Num::Lit(neg)));
                        }
                        tokens.push(Token::Number(Num::Lit(neg)));
                        i = end;
                    },
                    Err(e) => {
                        return Err(e);
                    },
                }
            } else {
                proof {
                    lemma_token_views_push(tokens@, Token::Operator(Operator::Subtract));
                }
                tokens.push(Token::Operator(Operator::Subtract));
                i = i + 1;
            }
        } else if digit_char(c) || c == '.' {
            match parse_number_string(s, i) {
                Ok((lit, end)) => {
                    proof {
                        assert(lit@.len() > 0);
                        assert(end > i);
                        lemma_token_views_push(tokens@, Token::Number(Num::Lit(lit)));
                    }
                    tokens.push(Token::Number(Num::Lit(lit)));
                    i = end;
                },
                Err(e) => {
                    return Err(e);
                },
            }
        } else if letter_char(c) || (vars.is_some() && c == '_') {
            let (ident, end) = parse_identifier(s, i);
            proof {
                assert(is_ident_char(s@[i as int]));
                assert(spec_ident_end(s@, i as int) == spec_ident_end(s@, i + 1));
                lemma_ident_end_range(s@, i + 1);
            }
            if constant_name(ident.as_str()) {
                proof {
                    lemma_token_views_push(tokens@, Token::Constant(ident));
                }
                tokens.push(Token::Constant(ident));
                i = end;
            } else if function_name(ident.as_str()) {
                proof {
                    lemma_token_views_push(tokens@, Token::Function(ident));
                }
                tokens.push(Token::Function(ident));
                i = end;
            } else {
                match vars {
                    None => {
                        let msg = String::from_str("Unknown identifier: '").concat(
                            ident.as_str(),
                        ).concat("'");
                        return Err(CalcError::new(ErrorKind::Syntax, msg));
                    },
                    Some(store) => {
                        match store.get(ident.as_str()) {
                            Some(v) => {
                                proof {
                                    lemma_token_views_push(tokens@, Token::Number(Num::Val(v)));
                                }
                                tokens.push(Token::Number(Num::Val(v)));
                                i = end;
                            },
                            None => {
                                let msg = String::from_str("Undefined variable: '").concat(
                                    ident.as_str(),
                                ).concat("'");
                                return Err(CalcError::new(ErrorKind::UndefinedVariable, msg));
                            },
                        }
                    },
                }
            }
        } else {
            let ch = s.substring_char(i, i + 1);
            proof {
                assert(ch@ =~= seq![c]);
            }
            let msg = String::from_str("Invalid character in expression: '").concat(ch).concat(
                "'",
            );
            return Err(CalcError::new(ErrorKind::Syntax, msg));
        }
    }
    Ok(tokens)
}

/// Tokenizes a mathematical expression; identifiers may only be the built-in
/// constants and functions. Returns the token sequence, or the error for an
/// invalid character, a malformed number or an unknown identifier.
pub fn tokenize(expression: &str) -> (r: Result<Vec<Token>, CalcError>)
    ensures
        match r {
            Ok(toks) => spec_tokenize(expression@, None) == Ok::<
                Seq<TokenView>,
                (ErrorKind, Seq<char>),
            >(token_views(toks@)),
            Err(e) => spec_tokenize(expression@, None) == Err::<
                Seq<TokenView>,
                (ErrorKind, Seq<char>),
            >(e@),
        },
{
    tokenize_impl(expression, None)
}

/// Tokenizes an expression, substituting the current value of every variable
/// found in the store; an identifier that is neither reserved nor stored is
/// an undefined-variable error.
pub fn tokenize_with_variables(expression: &str, variables: &VarStore) -> (r: Result<
    Vec<Token>,
    CalcError,
>)
    requires
        variables.wf(),
    ensures
        match r {
            Ok(toks) => spec_tokenize(expression@, Some(variables@)) == Ok::<
                Seq<TokenView>,
                (ErrorKind, Seq<char>),
            >(token_views(toks@)),
            Err(e) => spec_tokenize(expression@, Some(variables@)) == Err::<
                Seq<TokenView>,
                (ErrorKind, Seq<char>),
            >(e@),
        },
{
    tokenize_impl(expression, Some(variables))
}

/// Pops pending operators that bind at least as tightly as the incoming
/// operator: strictly tighter, or equally tightly when the incoming operator
/// is left-associative.
pub open spec fn spec_pop_ops(op: Operator, stack: Seq<TokenView>, out: Seq<TokenView>) -> (
    Seq<TokenView>,
    Seq<TokenView>,
)
    decreases stack.len(),
{
    if stack.len() > 0 && stack.last() is Operator && {
        let top = stack.last()->Operator_0;
        top.spec_precedence() > op.spec_precedence() || (top.spec_precedence()
            == op.spec_precedence() && op.spec_is_left_associative())
    } {
        spec_pop_ops(op, stack.drop_last(), out.push(stack.last()))
    } else {
        (stack, out)
    }
}

/// Pops pending entries to the output until a left parenthesis, which is
/// discarded; `None` when the stack holds no left parenthesis.
pub open spec fn spec_pop_until_lparen(stack: Seq<TokenView>, out: Seq<TokenView>) -> Option<
    (Seq<TokenView>, Seq<TokenView>),
>
    decreases stack.len(),
{
    if stack.len() == 0 {
        None
    } else if stack.last() is LeftParen {
        Some((stack.drop_last(), out))
    } else {
        spec_pop_until_lparen(stack.drop_last(), out.push(stack.last()))
    }
}

/// Pops every remaining pending entry to the output once the input is
/// consumed; a remaining left parenthesis means a missing right one.
pub open spec fn spec_drain(stack: Seq<TokenView>, out: Seq<TokenView>) -> Result<
    Seq<TokenView>,
    (ErrorKind, Seq<char>),
>
    decreases stack.len(),
{
    if stack.len() == 0 {
        Ok(out)
    } else if stack.last() is LeftParen {
        Err((ErrorKind::ParenthesisMismatch, "Mismatched parentheses: missing ')'"@))
    } else {
        spec_drain(stack.drop_last(), out.push(stack.last()))
    }
}

/// The Shunting Yard rewrite from position `i` on, with the given pending
/// operator stack and output so far.
pub open spec fn spec_shunt_from(
    toks: Seq<TokenView>,
    i: int,
    stack: Seq<TokenView>,
    out: Seq<TokenView>,
) -> Result<Seq<TokenView>, (ErrorKind, Seq<char>)>
    decreases toks.len() - i,
{
    if i < 0 || i >= toks.len() {
        spec_drain(stack, out)
    } else {
        let t = toks[i];
        match t {
            TokenView::Number(_) => spec_shunt_from(toks, i + 1, stack, out.push(t)),
            TokenView::Value(_) => spec_shunt_from(toks, i + 1, stack, out.push(t)),
            TokenView::Constant(_) => spec_shunt_from(toks, i + 1, stack, out.push(t)),
            TokenView::Variable(_) => spec_shunt_from(toks, i + 1, stack, out.push(t)),
            TokenView::Factorial => spec_shunt_from(toks, i + 1, stack, out.push(t)),
            TokenView::Function(_) => spec_shunt_from(toks, i + 1, stack.push(t), out),
            TokenView::Operator(op) => {
                let p = spec_pop_ops(op, stack, out);
                spec_shunt_from(toks, i + 1, p.0.push(t), p.1)
            },
            TokenView::LeftParen => spec_shunt_from(toks, i + 1, stack.push(t), out),
            TokenView::RightParen => match spec_pop_until_lparen(stack, out) {
                None => Err(
                    (ErrorKind::ParenthesisMismatch, "Mismatched parentheses: missing '('"@),
                ),
                Some(p) => if p.0.len() > 0 && p.0.last() is Function {
                    spec_shunt_from(toks, i + 1, p.0.drop_last(), p.1.push(p.0.last()))
                } else {
                    spec_shunt_from(toks, i + 1, p.0, p.1)
                },
            },
        }
    }
}

/// The Shunting Yard rewrite of a whole token sequence into postfix order.
pub open spec fn spec_shunt(toks: Seq<TokenView>) -> Result<
    Seq<TokenView>,
    (ErrorKind, Seq<char>),
> {
    spec_shunt_from(toks, 0, Seq::empty(), Seq::empty())
}

/// Converts infix tokens to postfix order with the Shunting Yard algorithm.
/// Returns the reordered tokens, or a parenthesis-mismatch error.
pub fn infix_to_postfix(tokens: Vec<Token>) -> (r: Result<Vec<Token>, CalcError>)
    ensures
        match r {
            Ok(out) => spec_shunt(token_views(tokens@)) == Ok::<
                Seq<TokenView>,
                (ErrorKind, Seq<char>),
            >(token_views(out@)),
            Err(e) => spec_shunt(token_views(tokens@)) == Err::<
                Seq<TokenView>,
                (ErrorKind, Seq<char>),
            >(e@),
        },
{
    let ghost tv = token_views(tokens@);
    let mut output: Vec<Token> = Vec::new();
    let mut operator_stack: Vec<Token> = Vec::new();
    let mut i: usize = 0;
    proof {
        assert(token_views(output@) =~= Seq::<TokenView>::empty());
        assert(token_views(operator_stack@) =~= Seq::<TokenView>::empty());
    }
    while i < tokens.len()
        invariant
            tv == token_views(tokens@),
            0 <= i <= tokens@.len(),
            spec_shunt(tv) == spec_shunt_from(
                tv,
                i as int,
                token_views(operator_stack@),
                token_views(output@),
            ),
        decreases tokens@.len() - i,
    {
        let t = clone_token(&tokens[i]);
        proof {
            assert(t@ == tv[i as int]);
        }
        match t {
            Token::Number(_) | Token::Constant(_) | Token::Variable(_) | Token::Factorial => {
                proof {
                    lemma_token_views_push(output@, t);
                }
                output.push(t);
            },
            Token::Function(_) => {
                proof {
                    lemma_token_views_push(operator_stack@, t);
                }
                operator_stack.push(t);
            },
            Token::Operator(op) => {
                let ghost stack0 = token_views(operator_stack@);
                let ghost out0 = token_views(output@);
                loop
                    invariant
                        spec_pop_ops(op, stack0, out0) == spec_pop_ops(
                            op,
                            token_views(operator_stack@),
                            token_views(output@),
                        ),
                    ensures
                        spec_pop_ops(op, stack0, out0) == (
                            token_views(operator_stack@),
                            token_views(output@),
                        ),
                    decreases operator_stack@.len(),
                {
                    if operator_stack.len() == 0 {
                        break ;
                    }
                    let should_pop = match &operator_stack[operator_stack.len() - 1] {
                        Token::Operator(stack_op) => stack_op.precedence() > op.precedence() || (
                        stack_op.precedence() == op.precedence() && op.is_left_associative()),
                        _ => false,
                    };
                    proof {
                        assert(token_views(operator_stack@).last() == operator_stack@.last()@);
                    }
                    if !should_pop {
                        break ;
                    }
                    let ghost sv_pre = operator_stack@;
                    let ghost ov_pre = output@;
                    let top = operator_stack.pop().unwrap();
                    proof {
                        assert(sv_pre =~= operator_stack@.push(top));
                        lemma_token_views_push(operator_stack@, top);
                        assert(token_views(sv_pre) =~= token_views(operator_stack@).push(top@));
                        assert(token_views(sv_pre).last() == top@);
                        assert(token_views(sv_pre).drop_last() =~= token_views(operator_stack@));
                        lemma_token_views_push(ov_pre, top);
                    }
                    output.push(top);
                    proof {
                        assert(spec_pop_ops(op, token_views(sv_pre), token_views(ov_pre))
                            == spec_pop_ops(
                            op,
                            token_views(operator_stack@),
                            token_views(output@),
                        ));
                    }
                }
                let ghost sv_mid = operator_stack@;
                proof {
                    lemma_token_views_push(sv_mid, t);
                }
                operator_stack.push(t);
                proof {
                    assert(token_views(operator_stack@) =~= token_views(sv_mid).push(t@));
                    assert(spec_shunt_from(tv, i as int, stack0, out0) == spec_shunt_from(
                        tv,
                        i + 1,
                        token_views(operator_stack@),
                        token_views(output@),
                    ));
                }
            },
            Token::LeftParen => {
                proof {
                    lemma_token_views_push(operator_stack@, t);
                }
                operator_stack.push(t);
            },
            Token::RightParen => {
                let ghost stack0 = token_views(operator_stack@);
                let ghost out0 = token_views(output@);
                let mut found_left_paren = false;
                loop
                    invariant_except_break
                        !found_left_paren,
                        spec_pop_until_lparen(stack0, out0) == spec_pop_until_lparen(
                            token_views(operator_stack@),
                            token_views(output@),
                        ),
                    ensures
                        if found_left_paren {
                            spec_pop_until_lparen(stack0, out0) == Some(
                                (token_views(operator_stack@), token_views(output@)),
                            )
                        } else {
                            spec_pop_until_lparen(stack0, out0) is None
                        },
                    decreases operator_stack@.len(),
                {
                    if operator_stack.len() == 0 {
                        break ;
                    }
                    let ghost sv_pre = operator_stack@;
                    let ghost ov_pre = output@;
                    let top = operator_stack.pop().unwrap();
                    proof {
                        assert(sv_pre =~= operator_stack@.push(top));
                        lemma_token_views_push(operator_stack@, top);
                        assert(token_views(sv_pre) =~= token_views(operator_stack@).push(top@));
                        assert(token_views(sv_pre).last() == top@);
                        assert(token_views(sv_pre).drop_last() =~= token_views(operator_stack@));
                    }
                    match top {
                        Token::LeftParen => {
                            proof {
                                assert(spec_pop_until_lparen(
                                    token_views(sv_pre),
                                    token_views(ov_pre),
                                ) == Some(
                                    (token_views(operator_stack@), token_views(output@)),
                                ));
                            }
                            found_left_paren = true;
                            break ;
                        },
                        _ => {
                            proof {
                                assert(!(top@ is LeftParen));
                                lemma_token_views_push(ov_pre, top);
                            }
                            output.push(top);
                            proof {
                                assert(spec_pop_until_lparen(
                                    token_views(sv_pre),
                                    token_views(ov_pre),
                                ) == spec_pop_until_lparen(
                                    token_views(operator_stack@),
                                    token_views(output@),
                                ));
                            }
                        },
                    }
                }
                if !found_left_paren {
                    return Err(CalcError::from_parts(
                        ErrorKind::ParenthesisMismatch,
                        "Mismatched parentheses: missing '('",
                    ));
                }
                let has_function = operator_stack.len() > 0 && match &operator_stack[
                    operator_stack.len() - 1] {
                    Token::Function(_) => true,
                    _ => false,
                };
                proof {
                    if operator_stack@.len() > 0 {
                        assert(token_views(operator_stack@).last() == operator_stack@.last()@);
                    }
                }
                if has_function {
                    let ghost sv_pre = operator_stack@;
                    let ghost ov_pre = output@;
                    let f = operator_stack.pop().unwrap();
                    proof {
                        assert(sv_pre =~= operator_stack@.push(f));
                        lemma_token_views_push(operator_stack@, f);
                        assert(token_views(sv_pre) =~= token_views(operator_stack@).push(f@));
                        assert(token_views(sv_pre).last() == f@);
                        assert(token_views(sv_pre).drop_last() =~= token_views(operator_stack@));
                        lemma_token_views_push(ov_pre, f);
                    }
                    output.push(f);
                    proof {
                        assert(spec_shunt_from(tv, i as int, stack0, out0) == spec_shunt_from(
                            tv,
                            i + 1,
                            token_views(operator_stack@),
                            token_views(output@),
                        ));
                    }
                } else {
                    proof {
                        assert(spec_shunt_from(tv, i as int, stack0, out0) == spec_shunt_from(
                            tv,
                            i + 1,
                            token_views(operator_stack@),
                            token_views(output@),
                        ));
                    }
                }
            },
        }
        i = i + 1;
    }
    let ghost stack0 = token_views(operator_stack@);
    let ghost out0 = token_views(output@);
    proof {
        assert(spec_shunt(tv) == spec_drain(stack0, out0));
    }
    loop
        invariant
            tv == token_views(tokens@),
            spec_shunt(tv) == spec_drain(stack0, out0),
            spec_drain(stack0, out0) == spec_drain(
                token_views(operator_stack@),
                token_views(output@),
            ),
        ensures
            operator_stack@.len() == 0,
            spec_drain(stack0, out0) == spec_drain(
                token_views(operator_stack@),
                token_views(output@),
            ),
        decreases operator_stack@.len(),
    {
        if operator_stack.len() == 0 {
            break ;
        }
        let ghost sv_pre = operator_stack@;
        let ghost ov_pre = output@;
        let top = operator_stack.pop().unwrap();
        proof {
            assert(sv_pre =~= operator_stack@.push(top));
            lemma_token_views_push(operator_stack@, top);
            assert(token_views(sv_pre) =~= token_views(operator_stack@).push(top@));
            assert(token_views(sv_pre).last() == top@);
            assert(token_views(sv_pre).drop_last() =~= token_views(operator_stack@));
        }
        match top {
            Token::LeftParen => {
                proof {
                    assert(spec_drain(token_views(sv_pre), token_views(ov_pre)) == Err::<
                        Seq<TokenView>,
                        (ErrorKind, Seq<char>),
                    >((ErrorKind::ParenthesisMismatch, "Mismatched parentheses: missing ')'"@)));
                }
                return Err(CalcError::from_parts(
                    ErrorKind::ParenthesisMismatch,
                    "Mismatched parentheses: missing ')'",
                ));
            },
            _ => {
                proof {
                    assert(!(top@ is LeftParen));
                    lemma_token_views_push(ov_pre, top);
                }
                output.push(top);
                proof {
                    assert(spec_drain(token_views(sv_pre), token_views(ov_pre)) == spec_drain(
                        token_views(operator_stack@),
                        token_views(output@),
                    ));
                }
            },
        }
    }
    proof {
        assert(token_views(operator_stack@) =~= Seq::<TokenView>::empty());
        assert(spec_drain(token_views(operator_stack@), token_views(output@)) == Ok::<
            Seq<TokenView>,
            (ErrorKind, Seq<char>),
        >(token_views(output@)));
        assert(spec_shunt(tv) == Ok::<Seq<TokenView>, (ErrorKind, Seq<char>)>(
            token_views(output@),
        ));
    }
    Ok(output)
}


/// Whether the parentheses of a partial input are unmatched: a closing
/// parenthesis with no opening one, or open parentheses left at the end.
/// The interactive shell keeps reading lines while this holds.
pub open spec fn spec_unmatched_parens(s: Seq<char>, i: int, depth: int) -> bool
    decreases s.len() - i,
{
    if i < 0 || i >= s.len() {
        depth != 0
    } else if s[i] == '(' {
        spec_unmatched_parens(s, i + 1, depth + 1)
    } else if s[i] == ')' {
        if depth == 0 {
            true
        } else {
            spec_unmatched_parens(s, i + 1, depth - 1)
        }
    } else {
        spec_unmatched_parens(s, i + 1, depth)
    }
}

/// Checks whether parentheses are unbalanced in the input: more closing than
/// opening at some point, or unclosed ones at the end.
pub fn has_unmatched_parens(input: &str) -> (r: bool)
    ensures
        r == spec_unmatched_parens(input@, 0, 0),
{
    let len = input.unicode_len();
    let mut depth: usize = 0;
    let mut i: usize = 0;
    while i < len
        invariant
            len == input@.len(),
            i <= len,
            depth <= i,
            spec_unmatched_parens(input@, 0, 0) == spec_unmatched_parens(
                input@,
                i as int,
                depth as int,
            ),
        decreases len - i,
    {
        let c = input.get_char(i);
        if c == '(' {
            depth = depth + 1;
        } else if c == ')' {
            if depth == 0 {
                return true;
            }
            depth = depth - 1;
        }
        i = i + 1;
    }
    depth != 0
}


/// What the scanner can emit: constant tokens name only the two built-in
/// constants, function tokens only the six built-in functions, and no
/// unresolved variable token is ever produced.
pub open spec fn scanned_token(t: TokenView) -> bool {
    match t {
        TokenView::Constant(n) => is_constant_name(n),
        TokenView::Function(n) => is_function_name(n),
        TokenView::Variable(_) => false,
        _ => true,
    }
}

/// What the converter keeps on its pending stack: operators, functions and
/// left-parenthesis markers.
pub open spec fn pending_token(t: TokenView) -> bool {
    (t is Operator || t is Function || t is LeftParen) && scanned_token(t)
}

/// What the converter can emit: a scanned token that is not a parenthesis.
pub open spec fn postfix_token(t: TokenView) -> bool {
    scanned_token(t) && !(t is LeftParen) && !(t is RightParen)
}

proof fn lemma_pop_ops_preserves(op: Operator, stack: Seq<TokenView>, out: Seq<TokenView>)
    requires
        forall|j: int| 0 <= j < stack.len() ==> pending_token(#[trigger] stack[j]),
        forall|j: int| 0 <= j < out.len() ==> postfix_token(#[trigger] out[j]),
    ensures
        forall|j: int|
            0 <= j < spec_pop_ops(op, stack, out).0.len() ==> pending_token(
                #[trigger] spec_pop_ops(op, stack, out).0[j],
            ),
        forall|j: int|
            0 <= j < spec_pop_ops(op, stack, out).1.len() ==> postfix_token(
                #[trigger] spec_pop_ops(op, stack, out).1[j],
            ),
    decreases stack.len(),
{
    let p = spec_pop_ops(op, stack, out);
    if stack.len() > 0 && stack.last() is Operator && {
        let top = stack.last()->Operator_0;
        top.spec_precedence() > op.spec_precedence() || (top.spec_precedence()
            == op.spec_precedence() && op.spec_is_left_associative())
    } {
        let p2 = spec_pop_ops(op, stack.drop_last(), out.push(stack.last()));
        assert(p == p2);
        lemma_pop_ops_preserves(op, stack.drop_last(), out.push(stack.last()));
        assert forall|j: int| 0 <= j < p.0.len() implies pending_token(#[trigger] p.0[j]) by {
            assert(pending_token(p2.0[j]));
        }
        assert forall|j: int| 0 <= j < p.1.len() implies postfix_token(#[trigger] p.1[j]) by {
            assert(postfix_token(p2.1[j]));
        }
    }
}

proof fn lemma_pop_until_preserves(stack: Seq<TokenView>, out: Seq<TokenView>)
    requires
        forall|j: int| 0 <= j < stack.len() ==> pending_token(#[trigger] stack[j]),
        forall|j: int| 0 <= j < out.len() ==> postfix_token(#[trigger] out[j]),
        spec_pop_until_lparen(stack, out) is Some,
    ensures
        ({
            let p = spec_pop_until_lparen(stack, out)->Some_0;
            &&& forall|j: int| 0 <= j < p.0.len() ==> pending_token(#[trigger] p.0[j])
            &&& forall|j: int| 0 <= j < p.1.len() ==> postfix_token(#[trigger] p.1[j])
        }),
    decreases stack.len(),
{
    if stack.len() > 0 && !(stack.last() is LeftParen) {
        let p = spec_pop_until_lparen(stack, out)->Some_0;
        let p2 = spec_pop_until_lparen(stack.drop_last(), out.push(stack.last()))->Some_0;
        assert(p == p2);
        lemma_pop_until_preserves(stack.drop_last(), out.push(stack.last()));
        assert forall|j: int| 0 <= j < p.0.len() implies pending_token(#[trigger] p.0[j]) by {
            assert(pending_token(p2.0[j]));
        }
        assert forall|j: int| 0 <= j < p.1.len() implies postfix_token(#[trigger] p.1[j]) by {
            assert(postfix_token(p2.1[j]));
        }
    }
}

proof fn lemma_drain_preserves(stack: Seq<TokenView>, out: Seq<TokenView>)
    requires
        forall|j: int| 0 <= j < stack.len() ==> pending_token(#[trigger] stack[j]),
        forall|j: int| 0 <= j < out.len() ==> postfix_token(#[trigger] out[j]),
        spec_drain(stack, out) is Ok,
    ensures
        forall|j: int|
            0 <= j < spec_drain(stack, out)->Ok_0.len() ==> postfix_token(
                #[trigger] spec_drain(stack, out)->Ok_0[j],
            ),
    decreases stack.len(),
{
    if stack.len() > 0 && !(stack.last() is LeftParen) {
        let r = spec_drain(stack, out)->Ok_0;
        let r2 = spec_drain(stack.drop_last(), out.push(stack.last()))->Ok_0;
        assert(r == r2);
        lemma_drain_preserves(stack.drop_last(), out.push(stack.last()));
        assert forall|j: int| 0 <= j < r.len() implies postfix_token(#[trigger] r[j]) by {
            assert(postfix_token(r2[j]));
        }
    }
}

proof fn lemma_shunt_preserves(
    toks: Seq<TokenView>,
    i: int,
    stack: Seq<TokenView>,
    out: Seq<TokenView>,
)
    requires
        0 <= i,
        forall|j: int| 0 <= j < toks.len() ==> scanned_token(#[trigger] toks[j]),
        forall|j: int| 0 <= j < stack.len() ==> pending_token(#[trigger] stack[j]),
        forall|j: int| 0 <= j < out.len() ==> postfix_token(#[trigger] out[j]),
        spec_shunt_from(toks, i, stack, out) is Ok,
    ensures
        forall|j: int|
            0 <= j < spec_shunt_from(toks, i, stack, out)->Ok_0.len() ==> postfix_token(
                #[trigger] spec_shunt_from(toks, i, stack, out)->Ok_0[j],
            ),
    decreases toks.len() - i,
{
    if i >= toks.len() {
        lemma_drain_preserves(stack, out);
    } else {
        let t = toks[i];
        match t {
            TokenView::Number(_) => lemma_shunt_preserves(toks, i + 1, stack, out.push(t)),
            TokenView::Value(_) => lemma_shunt_preserves(toks, i + 1, stack, out.push(t)),
            TokenView::Constant(_) => lemma_shunt_preserves(toks, i + 1, stack, out.push(t)),
            TokenView::Variable(_) => lemma_shunt_preserves(toks, i + 1, stack, out.push(t)),
            TokenView::Factorial => lemma_shunt_preserves(toks, i + 1, stack, out.push(t)),
            TokenView::Function(_) => lemma_shunt_preserves(toks, i + 1, stack.push(t), out),
            TokenView::Operator(op) => {
                lemma_pop_ops_preserves(op, stack, out);
                let p = spec_pop_ops(op, stack, out);
                lemma_shunt_preserves(toks, i + 1, p.0.push(t), p.1);
            },
            TokenView::LeftParen => lemma_shunt_preserves(toks, i + 1, stack.push(t), out),
            TokenView::RightParen => {
                lemma_pop_until_preserves(stack, out);
                let p = spec_pop_until_lparen(stack, out)->Some_0;
                if p.0.len() > 0 && p.0.last() is Function {
                    assert(pending_token(p.0[p.0.len() - 1]));
                    lemma_shunt_preserves(toks, i + 1, p.0.drop_last(), p.1.push(p.0.last()));
                } else {
                    lemma_shunt_preserves(toks, i + 1, p.0, p.1);
                }
            },
        }
    }
}

proof fn lemma_tokenize_scanned(
    s: Seq<char>,
    i: int,
    acc: Seq<TokenView>,
    vars: Option<Map<Seq<char>, u64>>,
)
    requires
        0 <= i,
        forall|j: int| 0 <= j < acc.len() ==> scanned_token(#[trigger] acc[j]),
        spec_tokenize_from(s, i, acc, vars) is Ok,
    ensures
        forall|j: int|
            0 <= j < spec_tokenize_from(s, i, acc, vars)->Ok_0.len() ==> scanned_token(
                #[trigger] spec_tokenize_from(s, i, acc, vars)->Ok_0[j],
            ),
    decreases s.len() - i,
{
    if 0 <= i < s.len() {
        lemma_num_end_range(s, i);
        lemma_num_end_range(s, i + 1);
        lemma_ident_end_range(s, i);
        if is_ident_char(s[i]) {
            lemma_ident_end_range(s, i + 1);
            assert(spec_ident_end(s, i) == spec_ident_end(s, i + 1));
        }
        let c = s[i];
        if is_space_char(c) {
            lemma_tokenize_scanned(s, i + 1, acc, vars);
        } else if c == '(' {
            lemma_tokenize_scanned(s, i + 1, acc.push(TokenView::LeftParen), vars);
        } else if c == ')' {
            lemma_tokenize_scanned(s, i + 1, acc.push(TokenView::RightParen), vars);
        } else if c == '!' {
            lemma_tokenize_scanned(s, i + 1, acc.push(TokenView::Factorial), vars);
        } else if c == '+' || c == '*' || c == '/' || c == '%' || c == '^' {
            lemma_tokenize_scanned(
                s,
                i + 1,
                acc.push(TokenView::Operator(spec_op_char(c))),
                vars,
            );
        } else if c == '-' {
            if acc.len() == 0 || acc.last() is Operator || acc.last() is LeftParen {
                match spec_number_scan(s, i + 1) {
                    Ok(p) => lemma_tokenize_scanned(
                        s,
                        p.1,
                        acc.push(TokenView::Number(seq!['-'] + p.0)),
                        vars,
                    ),
                    Err(_) => {},
                }
            } else {
                lemma_tokenize_scanned(
                    s,
                    i + 1,
                    acc.push(TokenView::Operator(Operator::Subtract)),
                    vars,
                );
            }
        } else if is_digit_char(c) || c == '.' {
            match spec_number_scan(s, i) {
                Ok(p) => lemma_tokenize_scanned(s, p.1, acc.push(TokenView::Number(p.0)), vars),
                Err(_) => {},
            }
        } else if is_letter_char(c) || (vars is Some && c == '_') {
            let end = spec_ident_end(s, i);
            let ident = s.subrange(i, end);
            if is_constant_name(ident) {
                lemma_tokenize_scanned(s, end, acc.push(TokenView::Constant(ident)), vars);
            } else if is_function_name(ident) {
                lemma_tokenize_scanned(s, end, acc.push(TokenView::Function(ident)), vars);
            } else {
                match vars {
                    Option::None => {},
                    Option::Some(m) => if m.contains_key(ident) {
                        lemma_tokenize_scanned(s, end, acc.push(TokenView::Value(m[ident])), vars);
                    } else {
                    },
                }
            }
        } else {
        }
    }
}

/// The pipeline hands the evaluator only tokens it can act on: whenever the
/// tokenizer and the converter both accept an expression, the resulting
/// postfix sequence holds no parenthesis, no unresolved variable, no
/// constant beyond `pi` and `e`, and no function beyond the six built-ins.
/// The evaluator's internal failures on such tokens are therefore
/// unreachable through the pipeline.
pub proof fn lemma_pipeline_emits_no_internal_tokens(
    s: Seq<char>,
    vars: Option<Map<Seq<char>, u64>>,
)
    ensures
        match spec_tokenize(s, vars) {
            Ok(toks) => match spec_shunt(toks) {
                Ok(p) => forall|j: int| 0 <= j < p.len() ==> postfix_token(#[trigger] p[j]),
                Err(_) => true,
            },
            Err(_) => true,
        },
{
    match spec_tokenize(s, vars) {
        Ok(toks) => {
            lemma_tokenize_scanned(s, 0, Seq::empty(), vars);
            match spec_shunt(toks) {
                Ok(_) => {
                    lemma_shunt_preserves(toks, 0, Seq::empty(), Seq::empty());
                },
                Err(_) => {},
            }
        },
        Err(_) => {},
    }
}

} // verus!




