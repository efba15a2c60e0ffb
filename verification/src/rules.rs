//! The heuristic rule evaluator: a depth-first, short-circuiting interpreter
//! for [`HeuristicRule`] values against file content.

use vstd::prelude::*;
use vstd::string::StringExecFns;

use crate::error::LinguistError;
use crate::indexed::{assoc_find, assoc_lookup};
use crate::patterns::{match_list, PatternCheck};
use crate::types::HeuristicRule;
use crate::utils::matches_pattern;

verus! {

/// The outcome of evaluating one heuristic rule against content.
pub ghost enum EvalOutcome {
    /// The rule matches the content.
    Match,
    /// The rule does not match the content.
    NoMatch,
    /// The rule references a named pattern that the table does not define.
    MissingNamed(Seq<char>),
    /// A pattern string consulted by the rule does not compile.
    BadRegex(Seq<char>),
}

/// Evaluates one rule. When `and` is present every sub-rule must match and
/// no other field of the rule is consulted; otherwise the named pattern, the
/// positive patterns and the negative patterns are checked in that order.
pub open spec fn eval_rule(
    named: Seq<(String, Vec<String>)>,
    rule: HeuristicRule,
    content: Seq<char>,
) -> EvalOutcome
    decreases rule,
{
    match rule.and {
        Some(subs) => eval_all(named, subs@, content),
        None => eval_named_step(named, rule, content),
    }
}

/// Evaluates sub-rules in order; the first outcome other than a match is the
/// result (short-circuit), and a match requires every sub-rule to match.
pub open spec fn eval_all(
    named: Seq<(String, Vec<String>)>,
    rules: Seq<HeuristicRule>,
    content: Seq<char>,
) -> EvalOutcome
    decreases rules,
{
    if rules.len() == 0 {
        EvalOutcome::Match
    } else {
        match eval_rule(named, rules[0], content) {
            EvalOutcome::Match => eval_all(named, rules.drop_first(), content),
            o => o,
        }
    }
}

/// The named-pattern step: resolve the reference (an undefined name is a
/// data-integrity error, never a silent mismatch), then require at least one
/// alternative to find an occurrence.
pub open spec fn eval_named_step(
    named: Seq<(String, Vec<String>)>,
    rule: HeuristicRule,
    content: Seq<char>,
) -> EvalOutcome {
    match rule.named_pattern {
        Some(name) => match assoc_lookup(named, name@) {
            None => EvalOutcome::MissingNamed(name@),
            Some(pats) => match match_list(pats.deep_view(), content) {
                PatternCheck::Bad(p) => EvalOutcome::BadRegex(p),
                PatternCheck::NotFound => EvalOutcome::NoMatch,
                PatternCheck::Found => eval_pattern_step(rule, content),
            },
        },
        None => eval_pattern_step(rule, content),
    }
}

/// The positive-pattern step: at least one alternative must find an
/// occurrence.
pub open spec fn eval_pattern_step(rule: HeuristicRule, content: Seq<char>) -> EvalOutcome {
    match rule.pattern {
        Some(pats) => match match_list(pats.deep_view(), content) {
            PatternCheck::Bad(p) => EvalOutcome::BadRegex(p),
            PatternCheck::NotFound => EvalOutcome::NoMatch,
            PatternCheck::Found => eval_negative_step(rule, content),
        },
        None => eval_negative_step(rule, content),
    }
}

/// The negative-pattern step: no alternative may find an occurrence. A rule
/// that reaches this point with no negative patterns matches; in particular
/// a rule with no conditions at all is an unconditional match.
pub open spec fn eval_negative_step(rule: HeuristicRule, content: Seq<char>) -> EvalOutcome {
    match rule.negative_pattern {
        Some(pats) => match match_list(pats.deep_view(), content) {
            PatternCheck::Bad(p) => EvalOutcome::BadRegex(p),
            PatternCheck::Found => EvalOutcome::NoMatch,
            PatternCheck::NotFound => EvalOutcome::Match,
        },
        None => EvalOutcome::Match,
    }
}

/// How an evaluation outcome appears as an executable result: a match is
/// `Ok(true)`, a mismatch `Ok(false)`, and the two data errors carry the
/// offending name or pattern.
pub open spec fn outcome_matches(m: EvalOutcome, r: Result<bool, LinguistError>) -> bool {
    match m {
        EvalOutcome::Match => r == Ok::<bool, LinguistError>(true),
        EvalOutcome::NoMatch => r == Ok::<bool, LinguistError>(false),
        EvalOutcome::MissingNamed(n) => r matches Err(e) && e matches
            LinguistError::MissingNamedPattern(s) && s@ == n,
        EvalOutcome::BadRegex(p) => r matches Err(e) && e matches LinguistError::InvalidRegex {
            pattern,
            error,
        } && pattern@ == p,
    }
}

/// Evaluates a single heuristic rule against file contents.
pub fn evaluate_rule(
    rule: &HeuristicRule,
    file_contents: &str,
    named_patterns: &Vec<(String, Vec<String>)>,
) -> (r: Result<bool, LinguistError>)
    ensures
        outcome_matches(eval_rule(named_patterns@, *rule, file_contents@), r),
    decreases *rule,
{
    match &rule.and {
        Some(and_rules) => {
            let ghost subs = and_rules@;
            let ghost np = named_patterns@;
            proof {
                assert(subs.skip(0) =~= subs);
            }
            let mut i: usize = 0;
            while i < and_rules.len()
                invariant
                    i <= and_rules.len(),
                    np == named_patterns@,
                    rule.and matches Some(v) && v@ == subs,
                    subs == and_rules@,
                    eval_all(np, subs, file_contents@) == eval_all(
                        np,
                        subs.skip(i as int),
                        file_contents@,
                    ),
                decreases and_rules@.len() - i,
            {
                proof {
                    assert(subs.skip(i as int)[0] == subs[i as int]);
                    assert(decreases_to!(*rule => rule.and->0));
                    assert(decreases_to!(rule.and->0 => subs));
                    assert(decreases_to!(subs => subs[i as int]));
                }
                let sub = &and_rules[i];
                match evaluate_rule(sub, file_contents, named_patterns) {
                    Ok(true) => {
                        proof {
                            assert(subs.skip(i as int).drop_first() =~= subs.skip(i as int + 1));
                        }
                        i = i + 1;
                    },
                    Ok(false) => {
                        return Ok(false);
                    },
                    Err(e) => {
                        return Err(e);
                    },
                }
            }
            proof {
                assert(subs.skip(and_rules@.len() as int) =~= Seq::<HeuristicRule>::empty());
            }
            Ok(true)
        },
        None => {
            if let Some(name) = &rule.named_pattern {
                match assoc_find(named_patterns, name.as_str()) {
                    Some(pats) => {
                        match matches_pattern(pats, file_contents) {
                            Ok(true) => {},
                            Ok(false) => {
                                return Ok(false);
                            },
                            Err(e) => {
                                return Err(e);
                            },
                        }
                    },
                    None => {
                        return Err(LinguistError::MissingNamedPattern(name.clone()));
                    },
                }
            }
            if let Some(pats) = &rule.pattern {
                match matches_pattern(pats, file_contents) {
                    Ok(true) => {},
                    Ok(false) => {
                        return Ok(false);
                    },
                    Err(e) => {
                        return Err(e);
                    },
                }
            }
            if let Some(neg) = &rule.negative_pattern {
                match matches_pattern(neg, file_contents) {
                    Ok(false) => {},
                    Ok(true) => {
                        return Ok(false);
                    },
                    Err(e) => {
                        return Err(e);
                    },
                }
            }
            Ok(true)
        },
    }
}

} // verus!
