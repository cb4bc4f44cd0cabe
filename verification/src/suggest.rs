//! Enhanced error messages: fuzzy name suggestions and contextual tips.
//!
//! The similarity measure comes from the `similar` crate; everything around
//! it — the threshold, the ordering, the choice of suggestions, the tips —
//! is decided and verified here. A ratio is carried as the bit pattern of
//! the non-negative single-precision value the crate returns, and
//! non-negative single-precision values order exactly as their bit patterns
//! do, so the threshold test and the descending sort work on the patterns.

use vstd::prelude::*;

use crate::parser::spec_find_char;
use crate::strutil::{
    lemma_contains_appended, lemma_contains_concat_left, lemma_contains_concat_right,
    spec_contains, spec_starts_with, str_contains, str_starts_with,
};

verus! {

/// The similarity ratio of two character sequences, as the `similar` crate
/// computes it: the bit pattern of a single-precision value in 0 to 1.
pub uninterp spec fn char_diff_ratio_bits(a: Seq<char>, b: Seq<char>) -> u32;

/// Relies on `similar::TextDiff::from_chars` and `TextDiff::ratio`: the
/// ratio is a pure function of the two character sequences — the diff is
/// computed by a deterministic algorithm — and is documented to lie in the
/// range 0 to 1, so it is never negative and never a NaN.
#[verifier::external_body]
fn similarity_ratio_bits(input: &str, candidate: &str) -> (r: u32)
    ensures
        r == char_diff_ratio_bits(input@, candidate@),
{
    similar::TextDiff::from_chars(input, candidate).ratio().to_bits()
}

/// The bit pattern of the single-precision value 0.6: a candidate whose
/// ratio reaches it counts as similar. Comparing patterns compares the
/// ratios, which are non-negative.
pub const SIMILARITY_THRESHOLD_BITS: u32 = 0x3F19_999A;

/// Whether a candidate is similar enough to the input to suggest.
pub open spec fn is_similar(input: Seq<char>, candidate: Seq<char>) -> bool {
    char_diff_ratio_bits(input, candidate) >= SIMILARITY_THRESHOLD_BITS
}

/// How many of the candidates are similar to the input.
pub open spec fn spec_similar_count(input: Seq<char>, cands: Seq<&str>) -> nat
    decreases cands.len(),
{
    if cands.len() == 0 {
        0
    } else {
        spec_similar_count(input, cands.drop_last()) + if is_similar(input, cands.last()@) {
            1nat
        } else {
            0nat
        }
    }
}


proof fn lemma_sorted_insert_members(
    input: Seq<char>,
    cands: Seq<&str>,
    i: int,
    pre: Seq<(u32, String)>,
    post: Seq<(u32, String)>,
    pos: int,
    entry: (u32, String),
)
    requires
        0 <= i < cands.len(),
        0 <= pos <= pre.len(),
        post == pre.insert(pos, entry),
        entry.1@ == cands[i]@,
        entry.0 == char_diff_ratio_bits(input, cands[i]@),
        is_similar(input, cands[i]@),
        forall|k: int|
            #![trigger pre[k]]
            0 <= k < pre.len() ==> is_similar(input, pre[k].1@) && pre[k].0
                == char_diff_ratio_bits(input, pre[k].1@) && exists|j: int|
                #![trigger cands[j]]
                0 <= j < i && cands[j]@ == pre[k].1@,
    ensures
        post.len() == pre.len() + 1,
        forall|k: int|
            #![trigger post[k]]
            0 <= k < post.len() ==> is_similar(input, post[k].1@) && post[k].0
                == char_diff_ratio_bits(input, post[k].1@) && exists|j: int|
                #![trigger cands[j]]
                0 <= j < i + 1 && cands[j]@ == post[k].1@,
{
    assert forall|k: int| #![trigger post[k]] 0 <= k < post.len() implies is_similar(
        input,
        post[k].1@,
    ) && post[k].0 == char_diff_ratio_bits(input, post[k].1@) && exists|j: int|
        #![trigger cands[j]]
        0 <= j < i + 1 && cands[j]@ == post[k].1@ by {
        if k < pos {
            assert(post[k] == pre[k]);
        } else if k == pos {
            assert(post[k] == entry);
            assert(cands[i]@ == post[k].1@);
        } else {
            assert(post[k] == pre[k - 1]);
        }
    }
}

proof fn lemma_sorted_insert_complete(
    input: Seq<char>,
    cands: Seq<&str>,
    i: int,
    pre: Seq<(u32, String)>,
    post: Seq<(u32, String)>,
    pos: int,
    entry: (u32, String),
)
    requires
        0 <= i < cands.len(),
        0 <= pos <= pre.len(),
        post == pre.insert(pos, entry),
        entry.1@ == cands[i]@,
        forall|j: int|
            0 <= j < i && is_similar(input, cands[j]@) ==> exists|k: int|
                #![trigger pre[k]]
                0 <= k < pre.len() && pre[k].1@ == cands[j]@,
    ensures
        forall|j: int|
            0 <= j < i + 1 && is_similar(input, cands[j]@) ==> exists|k: int|
                #![trigger post[k]]
                0 <= k < post.len() && post[k].1@ == cands[j]@,
{
    assert forall|j: int| 0 <= j < i + 1 && is_similar(input, cands[j]@) implies exists|k: int|
        #![trigger post[k]]
        0 <= k < post.len() && post[k].1@ == cands[j]@ by {
        if j == i {
            assert(post[pos] == entry);
            assert(post[pos].1@ == cands[j]@);
        } else {
            let k = choose|k: int| #![trigger pre[k]] 0 <= k < pre.len() && pre[k].1@ == cands[j]@;
            if k < pos {
                assert(post[k] == pre[k]);
                assert(post[k].1@ == cands[j]@);
            } else {
                assert(post[k + 1] == pre[k]);
                assert(post[k + 1].1@ == cands[j]@);
            }
        }
    }
}

proof fn lemma_sorted_insert_order(
    pre: Seq<(u32, String)>,
    post: Seq<(u32, String)>,
    pos: int,
    entry: (u32, String),
)
    requires
        0 <= pos <= pre.len(),
        post == pre.insert(pos, entry),
        forall|x: int| 0 <= x < pos ==> pre[x].0 >= entry.0,
        pos < pre.len() ==> entry.0 > pre[pos].0,
        forall|x: int, y: int| 0 <= x < y < pre.len() ==> pre[x].0 >= pre[y].0,
    ensures
        forall|x: int, y: int| 0 <= x < y < post.len() ==> post[x].0 >= post[y].0,
{
    assert forall|x: int, y: int| 0 <= x < y < post.len() implies post[x].0 >= post[y].0 by {
        if y == pos {
            assert(post[x] == pre[x]);
        } else if x == pos {
            assert(post[y] == pre[y - 1]);
        } else if y < pos {
            assert(post[x] == pre[x] && post[y] == pre[y]);
        } else if x < pos {
            assert(post[x] == pre[x] && post[y] == pre[y - 1]);
        } else {
            assert(post[x] == pre[x - 1] && post[y] == pre[y - 1]);
        }
    }
}

/// Finds candidates similar to the input: those whose ratio reaches the
/// threshold, most similar first, at most three. When fewer than three are
/// returned, every similar candidate is among them.
pub fn find_similar_strings(input: &str, candidates: &[&str]) -> (r: Vec<String>)
    ensures
        r@.len() == if spec_similar_count(input@, candidates@) < 3 {
            spec_similar_count(input@, candidates@) as int
        } else {
            3
        },
        forall|k: int|
            #![trigger r@[k]]
            0 <= k < r@.len() ==> is_similar(input@, r@[k]@) && exists|j: int|
                #![trigger candidates@[j]]
                0 <= j < candidates@.len() && candidates@[j]@ == r@[k]@,
        forall|x: int, y: int|
            0 <= x < y < r@.len() ==> char_diff_ratio_bits(input@, r@[x]@) >= char_diff_ratio_bits(
                input@,
                r@[y]@,
            ),
        r@.len() < 3 ==> forall|j: int|
            0 <= j < candidates@.len() && is_similar(input@, candidates@[j]@) ==> exists|k: int|
                #![trigger r@[k]]
                0 <= k < r@.len() && r@[k]@ == candidates@[j]@,
{
    let mut sorted: Vec<(u32, String)> = Vec::new();
    let mut i: usize = 0;
    proof {
        assert(candidates@.subrange(0, 0) =~= Seq::<&str>::empty());
    }
    while i < candidates.len()
        invariant
            i <= candidates@.len(),
            sorted@.len() == spec_similar_count(input@, candidates@.subrange(0, i as int)),
            forall|k: int|
                #![trigger sorted@[k]]
                0 <= k < sorted@.len() ==> is_similar(input@, sorted@[k].1@) && sorted@[k].0
                    == char_diff_ratio_bits(input@, sorted@[k].1@) && exists|j: int|
                    #![trigger candidates@[j]]
                    0 <= j < i && candidates@[j]@ == sorted@[k].1@,
            forall|j: int|
                0 <= j < i && is_similar(input@, candidates@[j]@) ==> exists|k: int|
                    #![trigger sorted@[k]]
                    0 <= k < sorted@.len() && sorted@[k].1@ == candidates@[j]@,
            forall|x: int, y: int| 0 <= x < y < sorted@.len() ==> sorted@[x].0 >= sorted@[y].0,
        decreases candidates@.len() - i,
    {
        let cand: &str = candidates[i];
        let ratio = similarity_ratio_bits(input, cand);
        proof {
            assert(candidates@.subrange(0, i + 1).drop_last() =~= candidates@.subrange(
                0,
                i as int,
            ));
            assert(candidates@.subrange(0, i + 1).last() == candidates@[i as int]);
        }
        if ratio >= SIMILARITY_THRESHOLD_BITS {
            let mut pos: usize = 0;
            while pos < sorted.len() && sorted[pos].0 >= ratio
                invariant
                    pos <= sorted@.len(),
                    forall|x: int| 0 <= x < pos ==> sorted@[x].0 >= ratio,
                decreases sorted@.len() - pos,
            {
                pos = pos + 1;
            }
            let ghost pre = sorted@;
            let entry = (ratio, String::from_str(cand));
            let ghost eview = entry;
            sorted.insert(pos, entry);
            proof {
                lemma_sorted_insert_members(
                    input@,
                    candidates@,
                    i as int,
                    pre,
                    sorted@,
                    pos as int,
                    eview,
                );
                lemma_sorted_insert_complete(
                    input@,
                    candidates@,
                    i as int,
                    pre,
                    sorted@,
                    pos as int,
                    eview,
                );
                lemma_sorted_insert_order(pre, sorted@, pos as int, eview);
            }
        }
        i = i + 1;
    }
    proof {
        assert(candidates@.subrange(0, candidates@.len() as int) =~= candidates@);
    }
    let take = if sorted.len() < 3 {
        sorted.len()
    } else {
        3
    };
    let mut r: Vec<String> = Vec::new();
    let mut k: usize = 0;
    while k < take
        invariant
            take <= sorted@.len(),
            k <= take,
            r@.len() == k,
            forall|x: int| #![trigger r@[x]] 0 <= x < k ==> r@[x]@ == sorted@[x].1@,
        decreases take - k,
    {
        r.push(sorted[k].1.clone());
        k = k + 1;
    }
    proof {
        if take < 3 {
            assert forall|j: int|
                0 <= j < candidates@.len() && is_similar(input@, candidates@[j]@) implies exists|
                ki: int,
            | 0 <= ki < r@.len() && r@[ki]@ == candidates@[j]@ by {
                let ki = choose|ki: int|
                    0 <= ki < sorted@.len() && sorted@[ki].1@ == candidates@[j]@;
                assert(r@[ki]@ == candidates@[j]@);
            }
        }
    }
    r
}

/// The text between the first pair of single quotes in the message, if the
/// message holds two of them.
pub open spec fn spec_extract_quoted(msg: Seq<char>) -> Option<Seq<char>> {
    let q1 = spec_find_char(msg, '\'', 0);
    if q1 == msg.len() {
        None
    } else {
        let q2 = spec_find_char(msg, '\'', q1 + 1);
        if q2 == msg.len() {
            None
        } else {
            Some(msg.subrange(q1 + 1, q2))
        }
    }
}

/// Extracts the text within the first pair of single quotes of a message.
pub fn extract_quoted_text(msg: &str) -> (r: Option<String>)
    ensures
        match r {
            Some(s) => spec_extract_quoted(msg@) == Some(s@),
            None => spec_extract_quoted(msg@) is None,
        },
{
    let len = msg.unicode_len();
    let mut q1: usize = 0;
    while q1 < len && msg.get_char(q1) != '\''
        invariant
            len == msg@.len(),
            q1 <= len,
            spec_find_char(msg@, '\'', 0) == spec_find_char(msg@, '\'', q1 as int),
        decreases len - q1,
    {
        q1 = q1 + 1;
    }
    assert(spec_find_char(msg@, '\'', 0) == q1 as int);
    if q1 == len {
        return None;
    }
    let mut q2: usize = q1 + 1;
    while q2 < len && msg.get_char(q2) != '\''
        invariant
            len == msg@.len(),
            q1 + 1 <= q2 <= len,
            spec_find_char(msg@, '\'', q1 + 1) == spec_find_char(msg@, '\'', q2 as int),
        decreases len - q2,
    {
        q2 = q2 + 1;
    }
    assert(spec_find_char(msg@, '\'', q1 + 1) == q2 as int);
    if q2 == len {
        return None;
    }
    Some(String::from_str(msg.substring_char(q1 + 1, q2)))
}

/// The built-in function names offered as suggestions.
fn function_candidates() -> Vec<&'static str> {
    let mut v: Vec<&'static str> = Vec::new();
    v.push("sin");
    v.push("cos");
    v.push("tan");
    v.push("sqrt");
    v.push("log");
    v.push("ln");
    v
}

/// The built-in constant names offered as suggestions.
fn constant_candidates() -> Vec<&'static str> {
    let mut v: Vec<&'static str> = Vec::new();
    v.push("pi");
    v.push("e");
    v
}

/// Joins strings with a comma and a space between them.
fn join_comma(items: &Vec<String>) -> String {
    let mut r = String::new();
    let mut i: usize = 0;
    while i < items.len()
        decreases items@.len() - i,
    {
        if i > 0 {
            r.append(", ");
        }
        r.append(items[i].as_str());
        i = i + 1;
    }
    r
}


/// Enhances an error message with suggestions and contextual tips. The
/// original message is always kept, unchanged, as a prefix of the result;
/// each tip below is present in the result whenever its trigger phrase
/// occurs in the message. Name suggestions for unknown identifiers and
/// undefined variables are appended between the message and the tips.
pub fn enhance_error_message(error_msg: &str, variable_names: &[String]) -> (r: String)
    ensures
        r@.len() >= error_msg@.len(),
        r@.subrange(0, error_msg@.len() as int) == error_msg@,
        spec_contains(error_msg@, "Mismatched parentheses"@) ==> spec_contains(
            r@,
            "\n  Tip: Check that every '(' has a matching ')'"@,
        ),
        spec_contains(error_msg@, "Division by zero"@) ==> spec_contains(
            r@,
            "\n  Tip: Division by zero is undefined in mathematics"@,
        ),
        spec_contains(error_msg@, "sqrt"@) && spec_contains(error_msg@, "negative"@)
            ==> spec_contains(
            r@,
            "\n  Tip: Square root of negative numbers is not supported (complex numbers)"@,
        ),
        spec_contains(error_msg@, "log"@) && spec_contains(error_msg@, "non-positive"@)
            ==> spec_contains(r@, "\n  Tip: Logarithm is only defined for positive numbers"@),
        spec_contains(error_msg@, "factorial"@) && spec_contains(error_msg@, "negative"@)
            ==> spec_contains(
            r@,
            "\n  Tip: Factorial is only defined for non-negative integers"@,
        ),
        spec_contains(error_msg@, "factorial"@) && !spec_contains(error_msg@, "negative"@)
            && spec_contains(error_msg@, "non-integer"@) ==> spec_contains(
            r@,
            "\n  Tip: Factorial requires an integer (e.g., 5! not 5.5!)"@,
        ),
        spec_contains(error_msg@, "Cannot assign to reserved name"@) ==> spec_contains(
            r@,
            "\n  Reserved names: pi, e, sin, cos, tan, sqrt, log, ln"@,
        ),
        (!spec_starts_with(error_msg@, "Unknown identifier:"@) && !spec_starts_with(
            error_msg@,
            "Undefined variable:"@,
        ) && !spec_contains(error_msg@, "Mismatched parentheses"@) && !spec_contains(
            error_msg@,
            "Division by zero"@,
        ) && !(spec_contains(error_msg@, "sqrt"@) && spec_contains(error_msg@, "negative"@)) && !(
        spec_contains(error_msg@, "log"@) && spec_contains(error_msg@, "non-positive"@))
            && !spec_contains(error_msg@, "factorial"@) && !spec_contains(
            error_msg@,
            "Cannot assign to reserved name"@,
        )) ==> r@ == error_msg@,
{
    let mut extra = String::new();
    let is_unknown_identifier = str_starts_with(error_msg, "Unknown identifier:");
    let is_undefined_variable = str_starts_with(error_msg, "Undefined variable:");
    if is_unknown_identifier {
        if let Some(identifier) = extract_quoted_text(error_msg) {
            let funs = function_candidates();
            let similar_functions = find_similar_strings(identifier.as_str(), funs.as_slice());
            if similar_functions.len() > 0 {
                extra.append("\n  Did you mean: ");
                extra.append(join_comma(&similar_functions).as_str());
                extra.append("?");
            }
            let consts = constant_candidates();
            let similar_constants = find_similar_strings(identifier.as_str(), consts.as_slice());
            if similar_constants.len() > 0 {
                extra.append("\n  Or perhaps: ");
                extra.append(join_comma(&similar_constants).as_str());
                extra.append("?");
            }
            if variable_names.len() > 0 {
                extra.append("\n  Use 'vars' to list all defined variables");
            }
        }
    }
    if is_undefined_variable {
        if let Some(var_name) = extract_quoted_text(error_msg) {
            let mut refs: Vec<&str> = Vec::new();
            let mut i: usize = 0;
            while i < variable_names.len()
                decreases variable_names@.len() - i,
            {
                refs.push(variable_names[i].as_str());
                i = i + 1;
            }
            let similar_vars = find_similar_strings(var_name.as_str(), refs.as_slice());
            if similar_vars.len() > 0 {
                extra.append("\n  Did you mean: ");
                extra.append(join_comma(&similar_vars).as_str());
                extra.append("?");
            } else if variable_names.len() > 0 {
                let mut names: Vec<String> = Vec::new();
                let mut i: usize = 0;
                while i < variable_names.len()
                    decreases variable_names@.len() - i,
                {
                    names.push(variable_names[i].clone());
                    i = i + 1;
                }
                extra.append("\n  Available variables: ");
                extra.append(join_comma(&names).as_str());
            } else {
                extra.append("\n  No variables defined. Define a variable with: x = 5");
            }
        }
    }
    let c_paren = str_contains(error_msg, "Mismatched parentheses");
    let c_div = str_contains(error_msg, "Division by zero");
    let c_sqrt = str_contains(error_msg, "sqrt") && str_contains(error_msg, "negative");
    let c_log = str_contains(error_msg, "log") && str_contains(error_msg, "non-positive");
    let c_fact = str_contains(error_msg, "factorial");
    let c_neg = str_contains(error_msg, "negative");
    let c_nonint = str_contains(error_msg, "non-integer");
    let c_reserved = str_contains(error_msg, "Cannot assign to reserved name");
    if c_paren {
        let ghost pre = extra@;
        extra.append("\n  Tip: Check that every '(' has a matching ')'");
        proof {
            lemma_contains_appended(pre, "\n  Tip: Check that every '(' has a matching ')'"@);
        }
    }
    if c_div {
        let ghost pre = extra@;
        extra.append("\n  Tip: Division by zero is undefined in mathematics");
        proof {
            lemma_contains_appended(pre, "\n  Tip: Division by zero is undefined in mathematics"@);
            if c_paren {
                lemma_contains_concat_left(
                    pre,
                    "\n  Tip: Division by zero is undefined in mathematics"@,
                    "\n  Tip: Check that every '(' has a matching ')'"@,
                );
            }
        }
    }
    if c_sqrt {
        let ghost pre = extra@;
        let seg = "\n  Tip: Square root of negative numbers is not supported (complex numbers)";
        extra.append(seg);
        proof {
            lemma_contains_appended(pre, seg@);
            if c_paren {
                lemma_contains_concat_left(
                    pre,
                    seg@,
                    "\n  Tip: Check that every '(' has a matching ')'"@,
                );
            }
            if c_div {
                lemma_contains_concat_left(
                    pre,
                    seg@,
                    "\n  Tip: Division by zero is undefined in mathematics"@,
                );
            }
        }
    }
    if c_log {
        let ghost pre = extra@;
        let seg = "\n  Tip: Logarithm is only defined for positive numbers";
        extra.append(seg);
        proof {
            lemma_contains_appended(pre, seg@);
            if c_paren {
                lemma_contains_concat_left(
                    pre,
                    seg@,
                    "\n  Tip: Check that every '(' has a matching ')'"@,
                );
            }
            if c_div {
                lemma_contains_concat_left(
                    pre,
                    seg@,
                    "\n  Tip: Division by zero is undefined in mathematics"@,
                );
            }
            if c_sqrt {
                lemma_contains_concat_left(
                    pre,
                    seg@,
                    "\n  Tip: Square root of negative numbers is not supported (complex numbers)"@,
                );
            }
        }
    }
    if c_fact {
        if c_neg {
            let ghost pre = extra@;
            let seg = "\n  Tip: Factorial is only defined for non-negative integers";
            extra.append(seg);
            proof {
                lemma_contains_appended(pre, seg@);
                if c_paren {
                    lemma_contains_concat_left(
                        pre,
                        seg@,
                        "\n  Tip: Check that every '(' has a matching ')'"@,
                    );
                }
                if c_div {
                    lemma_contains_concat_left(
                        pre,
                        seg@,
                        "\n  Tip: Division by zero is undefined in mathematics"@,
                    );
                }
                if c_sqrt {
                    lemma_contains_concat_left(
                        pre,
                        seg@,
                        "\n  Tip: Square root of negative numbers is not supported (complex numbers)"@,
                    );
                }
                if c_log {
                    lemma_contains_concat_left(
                        pre,
                        seg@,
                        "\n  Tip: Logarithm is only defined for positive numbers"@,
                    );
                }
            }
        } else if c_nonint {
            let ghost pre = extra@;
            let seg = "\n  Tip: Factorial requires an integer (e.g., 5! not 5.5!)";
            extra.append(seg);
            proof {
                lemma_contains_appended(pre, seg@);
                if c_paren {
                    lemma_contains_concat_left(
                        pre,
                        seg@,
                        "\n  Tip: Check that every '(' has a matching ')'"@,
                    );
                }
                if c_div {
                    lemma_contains_concat_left(
                        pre,
                        seg@,
                        "\n  Tip: Division by zero is undefined in mathematics"@,
                    );
                }
                if c_sqrt {
                    lemma_contains_concat_left(
                        pre,
                        seg@,
                        "\n  Tip: Square root of negative numbers is not supported (complex numbers)"@,
                    );
                }
                if c_log {
                    lemma_contains_concat_left(
                        pre,
                        seg@,
                        "\n  Tip: Logarithm is only defined for positive numbers"@,
                    );
                }
            }
        }
    }
    if c_reserved {
        let ghost pre = extra@;
        let seg = "\n  Tip: You cannot redefine built-in functions or constants";
        extra.append(seg);
        proof {
            if c_paren {
                lemma_contains_concat_left(
                    pre,
                    seg@,
                    "\n  Tip: Check that every '(' has a matching ')'"@,
                );
            }
            if c_div {
                lemma_contains_concat_left(
                    pre,
                    seg@,
                    "\n  Tip: Division by zero is undefined in mathematics"@,
                );
            }
            if c_sqrt {
                lemma_contains_concat_left(
                    pre,
                    seg@,
                    "\n  Tip: Square root of negative numbers is not supported (complex numbers)"@,
                );
            }
            if c_log {
                lemma_contains_concat_left(
                    pre,
                    seg@,
                    "\n  Tip: Logarithm is only defined for positive numbers"@,
                );
            }
            if c_fact && c_neg {
                lemma_contains_concat_left(
                    pre,
                    seg@,
                    "\n  Tip: Factorial is only defined for non-negative integers"@,
                );
            }
            if c_fact && !c_neg && c_nonint {
                lemma_contains_concat_left(
                    pre,
                    seg@,
                    "\n  Tip: Factorial requires an integer (e.g., 5! not 5.5!)"@,
                );
            }
        }
        let ghost pre2 = extra@;
        let seg2 = "\n  Reserved names: pi, e, sin, cos, tan, sqrt, log, ln";
        extra.append(seg2);
        proof {
            lemma_contains_appended(pre2, seg2@);
            if c_paren {
                lemma_contains_concat_left(
                    pre2,
                    seg2@,
                    "\n  Tip: Check that every '(' has a matching ')'"@,
                );
            }
            if c_div {
                lemma_contains_concat_left(
                    pre2,
                    seg2@,
                    "\n  Tip: Division by zero is undefined in mathematics"@,
                );
            }
            if c_sqrt {
                lemma_contains_concat_left(
                    pre2,
                    seg2@,
                    "\n  Tip: Square root of negative numbers is not supported (complex numbers)"@,
                );
            }
            if c_log {
                lemma_contains_concat_left(
                    pre2,
                    seg2@,
                    "\n  Tip: Logarithm is only defined for positive numbers"@,
                );
            }
            if c_fact && c_neg {
                lemma_contains_concat_left(
                    pre2,
                    seg2@,
                    "\n  Tip: Factorial is only defined for non-negative integers"@,
                );
            }
            if c_fact && !c_neg && c_nonint {
                lemma_contains_concat_left(
                    pre2,
                    seg2@,
                    "\n  Tip: Factorial requires an integer (e.g., 5! not 5.5!)"@,
                );
            }
        }
    }
    let mut enhanced = String::from_str(error_msg);
    let ghost suffix = extra@;
    enhanced.append(extra.as_str());
    proof {
        assert(enhanced@.subrange(0, error_msg@.len() as int) =~= error_msg@);
        if !is_unknown_identifier && !is_undefined_variable && !c_paren && !c_div && !c_sqrt
            && !c_log && !c_fact && !c_reserved {
            assert(enhanced@ =~= error_msg@);
        }
        if c_paren {
            lemma_contains_concat_right(
                error_msg@,
                suffix,
                "\n  Tip: Check that every '(' has a matching ')'"@,
            );
        }
        if c_div {
            lemma_contains_concat_right(
                error_msg@,
                suffix,
                "\n  Tip: Division by zero is undefined in mathematics"@,
            );
        }
        if c_sqrt {
            lemma_contains_concat_right(
                error_msg@,
                suffix,
                "\n  Tip: Square root of negative numbers is not supported (complex numbers)"@,
            );
        }
        if c_log {
            lemma_contains_concat_right(
                error_msg@,
                suffix,
                "\n  Tip: Logarithm is only defined for positive numbers"@,
            );
        }
        if c_fact && c_neg {
            lemma_contains_concat_right(
                error_msg@,
                suffix,
                "\n  Tip: Factorial is only defined for non-negative integers"@,
            );
        }
        if c_fact && !c_neg && c_nonint {
            lemma_contains_concat_right(
                error_msg@,
                suffix,
                "\n  Tip: Factorial requires an integer (e.g., 5! not 5.5!)"@,
            );
        }
        if c_reserved {
            lemma_contains_concat_right(
                error_msg@,
                suffix,
                "\n  Reserved names: pi, e, sin, cos, tan, sqrt, log, ln"@,
            );
        }
    }
    enhanced
}

} // verus!

