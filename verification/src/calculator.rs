//! The calculator session: one variable store and the evaluation pipeline.
//!
//! `evaluate_start` recognizes an assignment, tokenizes against the current
//! store, and converts to postfix; it borrows the session immutably, so a
//! failed evaluation can never touch the store. The caller drives the
//! returned machine, performing its arithmetic requests, and on success
//! hands the result to `evaluate_finish`, the one operation that writes an
//! evaluation's outcome: it binds the assignment target, if any, and always
//! overwrites `ans`. Everything or nothing: no partial result ever reaches
//! the store.

use vstd::prelude::*;

use crate::errors::{CalcError, ErrorKind};
use crate::evaluator::{spec_run, PostfixEvaluator, RunResult};
use crate::parser::{
    infix_to_postfix, is_reserved_name, parse_assignment, spec_find_char, spec_parse_assignment,
    spec_shunt, spec_tokenize, spec_valid_variable_name, tokenize, tokenize_with_variables,
};
use crate::strutil::{lex_le, spec_trim};
use crate::tokens::{token_views, TokenView};
use crate::varstore::{sort_entries_by_name, VarStore};

verus! {

/// The tokenize-then-convert pipeline on one expression: the postfix token
/// sequence it denotes, or the first error.
pub open spec fn spec_prepare(s: Seq<char>, vars: Option<Map<Seq<char>, u64>>) -> Result<
    Seq<TokenView>,
    (ErrorKind, Seq<char>),
> {
    match spec_tokenize(s, vars) {
        Ok(toks) => spec_shunt(toks),
        Err(e) => Err(e),
    }
}

/// What starting an evaluation against a store yields: the assignment
/// target, if any, and the postfix tokens of the expression to compute.
pub open spec fn spec_evaluate_start(s: Seq<char>, vars: Map<Seq<char>, u64>) -> Result<
    (Option<Seq<char>>, Seq<TokenView>),
    (ErrorKind, Seq<char>),
> {
    match spec_parse_assignment(s) {
        Err(e) => Err(e),
        Ok(None) => match spec_prepare(s, Some(vars)) {
            Ok(p) => Ok((None, p)),
            Err(e) => Err(e),
        },
        Ok(Some(a)) => match spec_prepare(a.1, Some(vars)) {
            Ok(p) => Ok((Some(a.0), p)),
            Err(e) => Err(e),
        },
    }
}

/// The store after a successful evaluation: the target name, if the
/// expression was an assignment, is bound to the result, and `ans` always is.
pub open spec fn spec_vars_after(
    vars: Map<Seq<char>, u64>,
    target: Option<Seq<char>>,
    value: u64,
) -> Map<Seq<char>, u64> {
    match target {
        Some(name) => vars.insert(name, value).insert("ans"@, value),
        None => vars.insert("ans"@, value),
    }
}

/// A prepared evaluation: the assignment target, if any, and the machine
/// that computes the expression's value.
pub struct EvalJob {
    /// The variable the result is to be bound to, for an assignment.
    pub target: Option<String>,
    /// The postfix evaluation machine, ready to run.
    pub eval: PostfixEvaluator,
}

/// A calculator session: a variable store, mutated only by successful
/// evaluations and the direct store operations.
#[derive(Debug)]
pub struct Calculator {
    variables: VarStore,
}

impl Calculator {
    /// The session's variable mapping.
    pub closed spec fn view(&self) -> Map<Seq<char>, u64> {
        self.variables@
    }

    /// Whether the session is well-formed.
    pub closed spec fn wf(&self) -> bool {
        self.variables.wf()
    }

    /// Creates a session with an empty variable store.
    pub fn new() -> (r: Calculator)
        ensures
            r.wf(),
            r@ == Map::<Seq<char>, u64>::empty(),
    {
        Calculator { variables: VarStore::new() }
    }

    /// The value bound to a variable, if any.
    pub fn get_variable(&self, name: &str) -> (r: Option<u64>)
        requires
            self.wf(),
        ensures
            r == if self@.contains_key(name@) {
                Some(self@[name@])
            } else {
                None::<u64>
            },
    {
        self.variables.get(name)
    }

    /// Binds a variable directly, bypassing name validation and the
    /// reserved-name check.
    pub fn set_variable(&mut self, name: &str, value: u64)
        requires
            old(self).wf(),
        ensures
            final(self).wf(),
            final(self)@ == old(self)@.insert(name@, value),
    {
        self.variables.set(name, value);
    }

    /// Removes a variable; returns whether it was bound.
    pub fn delete_variable(&mut self, name: &str) -> (r: bool)
        requires
            old(self).wf(),
        ensures
            final(self).wf(),
            final(self)@ == old(self)@.remove(name@),
            r == old(self)@.contains_key(name@),
    {
        self.variables.remove(name)
    }

    /// Removes every variable, `ans` included.
    pub fn clear_variables(&mut self)
        ensures
            final(self).wf(),
            final(self)@ == Map::<Seq<char>, u64>::empty(),
    {
        self.variables.clear();
    }

    /// Every binding of the store, sorted lexicographically by name.
    pub fn list_variables(&self) -> (r: Vec<(String, u64)>)
        requires
            self.wf(),
        ensures
            forall|x: int, y: int| 0 <= x < y < r@.len() ==> lex_le(r@[x].0@, r@[y].0@),
            forall|i: int|
                #![trigger r@[i]]
                0 <= i < r@.len() ==> self@.contains_key(r@[i].0@) && self@[r@[i].0@] == r@[i].1,
            forall|k: Seq<char>|
                self@.contains_key(k) ==> exists|i: int| 0 <= i < r@.len() && r@[i].0@ == k,
    {
        let entries = self.variables.entries_vec();
        let ghost ev = entries@;
        let r = sort_entries_by_name(entries);
        proof {
            ev.to_multiset_ensures();
            r@.to_multiset_ensures();
            assert forall|i: int| #![trigger r@[i]] 0 <= i < r@.len() implies self@.contains_key(
                r@[i].0@,
            ) && self@[r@[i].0@] == r@[i].1 by {
                assert(r@.to_multiset().count(r@[i]) > 0);
                assert(ev.contains(r@[i]));
                let j = choose|j: int| 0 <= j < ev.len() && ev[j] == r@[i];
                assert(self@.contains_key(ev[j].0@) && self@[ev[j].0@] == ev[j].1);
            }
            assert forall|k: Seq<char>| self@.contains_key(k) implies exists|i: int|
                0 <= i < r@.len() && r@[i].0@ == k by {
                let j = choose|j: int| 0 <= j < ev.len() && ev[j].0@ == k;
                assert(ev.to_multiset().count(ev[j]) > 0);
                assert(r@.contains(ev[j]));
                let i = choose|i: int| 0 <= i < r@.len() && r@[i] == ev[j];
                assert(r@[i].0@ == k);
            }
        }
        r
    }

    /// Recognizes an assignment, tokenizes against the current store and
    /// converts to postfix. Returns the prepared evaluation, or the first
    /// error of any stage. The session is only read: a failed call leaves
    /// the store exactly as it was.
    pub fn evaluate_start(&self, expression: &str) -> (r: Result<EvalJob, CalcError>)
        requires
            self.wf(),
        ensures
            match r {
                Ok(job) => match spec_evaluate_start(expression@, self@) {
                    Ok(p) => {
                        &&& match job.target {
                            Some(t) => p.0 == Some(t@),
                            None => p.0 is None,
                        }
                        &&& job.eval.tokens() == p.1
                        &&& job.eval.wf()
                        &&& job.eval.pos() == 0
                        &&& job.eval.operands() == Seq::<u64>::empty()
                        &&& job.eval.pending_req() is None
                        &&& !job.eval.halted()
                    },
                    Err(_) => false,
                },
                Err(e) => spec_evaluate_start(expression@, self@) == Err::<
                    (Option<Seq<char>>, Seq<TokenView>),
                    (ErrorKind, Seq<char>),
                >(e@),
            },
    {
        let assignment = parse_assignment(expression)?;
        match assignment {
            Some((name, rhs)) => {
                let toks = tokenize_with_variables(rhs.as_str(), &self.variables)?;
                let postfix = infix_to_postfix(toks)?;
                Ok(EvalJob { target: Some(name), eval: PostfixEvaluator::new(postfix) })
            },
            None => {
                let toks = tokenize_with_variables(expression, &self.variables)?;
                let postfix = infix_to_postfix(toks)?;
                Ok(EvalJob { target: None, eval: PostfixEvaluator::new(postfix) })
            },
        }
    }

    /// Records a successful evaluation: binds the assignment target, if the
    /// expression had one, and overwrites `ans` with the result.
    pub fn evaluate_finish(&mut self, target: Option<String>, value: u64)
        requires
            old(self).wf(),
        ensures
            final(self).wf(),
            final(self)@ == spec_vars_after(
                old(self)@,
                match target {
                    Some(t) => Some(t@),
                    None => None,
                },
                value,
            ),
    {
        match target {
            Some(name) => {
                self.variables.set(name.as_str(), value);
            },
            None => {},
        }
        self.variables.set("ans", value);
    }
}

/// Prepares a stateless evaluation: tokenizes without variable support and
/// converts to postfix. The returned machine computes what the expression
/// denotes; driving it requires no session.
pub fn evaluate_expression_start(expression: &str) -> (r: Result<PostfixEvaluator, CalcError>)
    ensures
        match r {
            Ok(ev) => match spec_prepare(expression@, None) {
                Ok(p) => {
                    &&& ev.tokens() == p
                    &&& ev.wf()
                    &&& ev.pos() == 0
                    &&& ev.operands() == Seq::<u64>::empty()
                    &&& ev.pending_req() is None
                    &&& !ev.halted()
                },
                Err(_) => false,
            },
            Err(e) => spec_prepare(expression@, None) == Err::<
                Seq<TokenView>,
                (ErrorKind, Seq<char>),
            >(e@),
        },
{
    let toks = tokenize(expression)?;
    let postfix = infix_to_postfix(toks)?;
    Ok(PostfixEvaluator::new(postfix))
}

/// What a whole stateless evaluation yields: the pipeline's postfix tokens
/// run against the answers the caller's arithmetic returns, or the first
/// pipeline error.
pub open spec fn spec_stateless_outcome(s: Seq<char>, answers: Seq<u64>) -> RunResult {
    match spec_prepare(s, None) {
        Ok(p) => spec_run(p, 0, Seq::empty(), answers),
        Err(e) => RunResult::Failure(e.0, e.1),
    }
}

/// Stateless evaluation is a pure function of the expression text and of the
/// arithmetic answers: two calls on the same characters prepare the same
/// postfix tokens, issue the same requests in the same order, and — the
/// arithmetic being deterministic, so answering equal requests equally —
/// yield the same result or the same error. Nothing else enters: there is no
/// hidden state.
pub proof fn lemma_stateless_evaluation_pure(e1: Seq<char>, e2: Seq<char>, answers: Seq<u64>)
    requires
        e1 == e2,
    ensures
        spec_prepare(e1, None) == spec_prepare(e2, None),
        spec_stateless_outcome(e1, answers) == spec_stateless_outcome(e2, answers),
{
}

/// A variable round-trip: after a successful assignment of `value` to
/// `name`, the store binds `name` to `value`, whatever it held before.
pub proof fn lemma_variable_round_trip(vars: Map<Seq<char>, u64>, name: Seq<char>, value: u64)
    ensures
        spec_vars_after(vars, Some(name), value).contains_key(name),
        spec_vars_after(vars, Some(name), value)[name] == value,
{
}

/// The last-result binding: every successful evaluation, assignment or not,
/// leaves `ans` bound to its result.
pub proof fn lemma_ans_propagation(
    vars: Map<Seq<char>, u64>,
    target: Option<Seq<char>>,
    value: u64,
)
    ensures
        spec_vars_after(vars, target, value).contains_key("ans"@),
        spec_vars_after(vars, target, value)["ans"@] == value,
{
}

/// Reserved names are protected: an expression that assigns to a reserved
/// name — its trimmed form has an `=`, and the trimmed text left of the
/// first `=` is a well-formed but reserved name — fails with an assignment
/// error, against every store, before anything is evaluated. Since starting
/// an evaluation only reads the session, the store is never touched.
pub proof fn lemma_reserved_name_assignment_fails(s: Seq<char>, vars: Map<Seq<char>, u64>)
    requires
        ({
            let t = spec_trim(s);
            let k = spec_find_char(t, '=', 0);
            let name = spec_trim(t.subrange(0, k));
            &&& k < t.len()
            &&& spec_valid_variable_name(name)
            &&& is_reserved_name(name)
        }),
    ensures
        ({
            let t = spec_trim(s);
            let k = spec_find_char(t, '=', 0);
            let name = spec_trim(t.subrange(0, k));
            let err = (
                ErrorKind::Assignment,
                "Cannot assign to reserved name: '"@ + name + "'"@,
            );
            &&& spec_parse_assignment(s) == Err::<Option<(Seq<char>, Seq<char>)>, _>(err)
            &&& spec_evaluate_start(s, vars) == Err::<(Option<Seq<char>>, Seq<TokenView>), _>(err)
        }),
{
}

} // verus!
