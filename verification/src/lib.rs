//! Language classification over a linguist-style dataset.
//!
//! The engine answers four questions about a file: which languages claim its
//! extension, which claim its exact filename, which language its content
//! points to when the extension is ambiguous, and whether its path looks like
//! a vendored/third-party file. The dataset (language table, heuristics,
//! vendor patterns) is supplied fully built by the caller, indexed once by
//! [`indexed::build_index`], and only read afterwards.

pub mod cli;
pub mod error;
pub mod indexed;
pub mod laws;
pub mod patterns;
pub mod rules;
pub mod types;
pub mod utils;

use vstd::prelude::*;

use crate::indexed::{assoc_find, assoc_lookup, found_indices, found_names, LinguistIndex};
use crate::patterns::{regex_found, regex_valid};
use crate::rules::{eval_rule, EvalOutcome};
use crate::types::{Disambiguation, HeuristicRule, Language, LanguageModel};
use crate::utils::{extensions_of, extract_extensions, filename_of, get_filename_from_path};

pub use crate::error::LinguistError;

verus! {

/// Represents a detected programming language: its name together with the
/// full definition from the language table.
#[derive(Debug, Clone)]
pub struct DetectedLanguage {
    /// The name of the detected language (e.g., "Python", "Rust").
    pub name: String,
    /// The full language definition with metadata.
    pub definition: Language,
}

impl View for DetectedLanguage {
    type V = (Seq<char>, LanguageModel);

    open spec fn view(&self) -> (Seq<char>, LanguageModel) {
        (self.name@, self.definition@)
    }
}

impl DeepView for DetectedLanguage {
    type V = (Seq<char>, LanguageModel);

    open spec fn deep_view(&self) -> (Seq<char>, LanguageModel) {
        self.view()
    }
}

/// Resolves names against the language table, in order, dropping names the
/// table does not define.
pub open spec fn resolve_names(langs: Seq<(String, Language)>, names: Seq<Seq<char>>) -> Seq<
    (Seq<char>, LanguageModel),
>
    decreases names.len(),
{
    if names.len() == 0 {
        Seq::empty()
    } else {
        (match assoc_lookup(langs, names[0]) {
            Some(def) => seq![(names[0], def@)],
            None => Seq::empty(),
        }) + resolve_names(langs, names.drop_first())
    }
}

/// Looks each name up in the language table and keeps the ones found, as
/// detected languages in the same order.
fn resolve_languages(languages: &Vec<(String, Language)>, names: &Vec<String>) -> (r: Vec<
    DetectedLanguage,
>)
    ensures
        r.deep_view() == resolve_names(languages@, names.deep_view()),
{
    let ghost all = names.deep_view();
    let mut found: Vec<DetectedLanguage> = Vec::new();
    proof {
        assert(all.skip(0) =~= all);
        assert(found.deep_view() + resolve_names(languages@, all.skip(0)) =~= resolve_names(
            languages@,
            all,
        ));
    }
    let mut i: usize = 0;
    while i < names.len()
        invariant
            i <= names.len(),
            all == names.deep_view(),
            resolve_names(languages@, all) == found.deep_view() + resolve_names(
                languages@,
                all.skip(i as int),
            ),
        decreases names.len() - i,
    {
        let ghost before = found.deep_view();
        proof {
            assert(all.skip(i as int)[0] == all[i as int]);
        }
        let name = &names[i];
        match assoc_find(languages, name.as_str()) {
            Some(def) => {
                found.push(DetectedLanguage { name: name.clone(), definition: def.clone() });
                proof {
                    assert(found.deep_view() =~= before.push((name@, def@)));
                }
            },
            None => {},
        }
        proof {
            assert(all.skip(i as int).drop_first() =~= all.skip(i as int + 1));
            assert(resolve_names(languages@, all) =~= found.deep_view() + resolve_names(
                languages@,
                all.skip(i as int + 1),
            ));
        }
        i = i + 1;
    }
    proof {
        assert(all.skip(names@.len() as int) =~= Seq::<Seq<char>>::empty());
        assert(resolve_names(languages@, all) =~= found.deep_view());
    }
    found
}

/// The names found for the candidate extensions, in order: the bucket of the
/// most specific extension first, then the less specific ones.
pub open spec fn gather_names(index: Seq<(String, Vec<String>)>, exts: Seq<Seq<char>>) -> Seq<
    Seq<char>,
>
    decreases exts.len(),
{
    if exts.len() == 0 {
        Seq::empty()
    } else {
        gather_names(index, exts.drop_last()) + found_names(index, exts.last())
    }
}

/// Removes repeated names, keeping the first occurrence of each.
pub open spec fn dedup_names(s: Seq<Seq<char>>) -> Seq<Seq<char>>
    decreases s.len(),
{
    if s.len() == 0 {
        Seq::empty()
    } else if s.drop_last().contains(s.last()) {
        dedup_names(s.drop_last())
    } else {
        dedup_names(s.drop_last()).push(s.last())
    }
}

/// A name survives deduplication exactly when it occurs at all.
pub proof fn lemma_dedup_contains(s: Seq<Seq<char>>, x: Seq<char>)
    ensures
        dedup_names(s).contains(x) == s.contains(x),
    decreases s.len(),
{
    if s.len() > 0 {
        lemma_dedup_contains(s.drop_last(), x);
        if s.drop_last().contains(x) {
            assert(s.contains(x)) by {
                let w = choose|w: int| 0 <= w < s.len() - 1 && #[trigger] s.drop_last()[w] == x;
                assert(s[w] == x);
            }
            if !s.drop_last().contains(s.last()) {
                assert(dedup_names(s).contains(x)) by {
                    let d = dedup_names(s.drop_last());
                    let w = choose|w: int| 0 <= w < d.len() && #[trigger] d[w] == x;
                    assert(dedup_names(s)[w] == x);
                }
            }
        } else {
            if x == s.last() {
                assert(s.contains(x)) by {
                    assert(s[s.len() - 1] == x);
                }
                if !s.drop_last().contains(s.last()) {
                    assert(dedup_names(s).last() == x);
                    assert(dedup_names(s).contains(x));
                }
            } else {
                if s.contains(x) {
                    let w = choose|w: int| 0 <= w < s.len() && #[trigger] s[w] == x;
                    assert(w < s.len() - 1);
                    assert(s.drop_last()[w] == x);
                    assert(false);
                }
                if dedup_names(s).contains(x) {
                    let d = dedup_names(s.drop_last());
                    if s.drop_last().contains(s.last()) {
                        assert(d.contains(x));
                    } else {
                        let w = choose|w: int|
                            0 <= w < dedup_names(s).len() && #[trigger] dedup_names(s)[w] == x;
                        assert(w < d.len());
                        assert(d[w] == x);
                        assert(d.contains(x));
                    }
                    assert(false);
                }
            }
        }
    }
}

/// What `detect_language_by_extension` reports for a filename: the names of
/// the languages registering any candidate extension, most specific
/// extension first, each name once.
pub open spec fn by_extension_names(idx: LinguistIndex, filename: Seq<char>) -> Seq<Seq<char>> {
    dedup_names(gather_names(idx.extension_index@, extensions_of(filename)))
}

/// Whether the vec of names already holds `s`.
fn contains_string(names: &Vec<String>, s: &str) -> (r: bool)
    ensures
        r == names.deep_view().contains(s@),
{
    let mut i: usize = 0;
    while i < names.len()
        invariant
            i <= names.len(),
            forall|j: int| 0 <= j < i ==> names.deep_view()[j] != s@,
        decreases names.len() - i,
    {
        if crate::indexed::str_eq(names[i].as_str(), s) {
            proof {
                assert(names.deep_view()[i as int] == s@);
            }
            return true;
        }
        i = i + 1;
    }
    false
}

/// Detects programming language(s) by file extension.
///
/// Candidate extensions are tried from most specific to least specific, the
/// matching languages are unioned across them, and each language appears
/// once, at its first position. An empty result is not an error; a path with
/// no filename component is.
pub fn detect_language_by_extension(idx: &LinguistIndex, filepath: &str) -> (r: Result<
    Vec<DetectedLanguage>,
    LinguistError,
>)
    ensures
        filename_of(filepath@).len() == 0 ==> r == Err::<Vec<DetectedLanguage>, LinguistError>(
            LinguistError::NoFilename,
        ),
        filename_of(filepath@).len() > 0 ==> (r matches Ok(langs) && langs.deep_view()
            == resolve_names(idx.languages@, by_extension_names(*idx, filename_of(filepath@)))),
{
    let filename = match get_filename_from_path(filepath) {
        Ok(f) => f,
        Err(e) => {
            return Err(e);
        },
    };
    let extensions = extract_extensions(filename.as_str());
    let ghost exts = extensions.deep_view();
    let ghost eidx = idx.extension_index@;
    let mut names: Vec<String> = Vec::new();
    proof {
        assert(exts.take(0) =~= Seq::<Seq<char>>::empty());
        assert(names.deep_view() =~= dedup_names(gather_names(eidx, exts.take(0))));
    }
    let mut i: usize = 0;
    while i < extensions.len()
        invariant
            i <= extensions.len(),
            exts == extensions.deep_view(),
            eidx == idx.extension_index@,
            names.deep_view() == dedup_names(gather_names(eidx, exts.take(i as int))),
        decreases extensions.len() - i,
    {
        let ghost gathered = gather_names(eidx, exts.take(i as int));
        let ext = &extensions[i];
        proof {
            assert(exts[i as int] == ext@);
        }
        match assoc_find(&idx.extension_index, ext.as_str()) {
            Some(bucket) => {
                let ghost bnames = bucket.deep_view();
                proof {
                    assert(found_names(eidx, ext@) == bnames);
                }
                let mut j: usize = 0;
                while j < bucket.len()
                    invariant
                        j <= bucket.len(),
                        bnames == bucket.deep_view(),
                        names.deep_view() == dedup_names(gathered + bnames.take(j as int)),
                    decreases bucket.len() - j,
                {
                    let ghost sofar = gathered + bnames.take(j as int);
                    let ghost before = names.deep_view();
                    let name = &bucket[j];
                    proof {
                        assert(bnames[j as int] == name@);
                        assert((gathered + bnames.take(j as int + 1)).drop_last() =~= sofar);
                        assert((gathered + bnames.take(j as int + 1)).last() == name@);
                        lemma_dedup_contains(sofar, name@);
                    }
                    if contains_string(&names, name.as_str()) {
                        proof {
                            assert(sofar.contains(name@));
                            assert(names.deep_view() =~= dedup_names(
                                gathered + bnames.take(j as int + 1),
                            ));
                        }
                    } else {
                        names.push(name.clone());
                        proof {
                            assert(!sofar.contains(name@));
                            assert(names.deep_view() =~= before.push(name@));
                            assert(names.deep_view() =~= dedup_names(
                                gathered + bnames.take(j as int + 1),
                            ));
                        }
                    }
                    j = j + 1;
                }
                proof {
                    assert(bnames.take(bucket@.len() as int) =~= bnames);
                }
            },
            None => {
                proof {
                    assert(found_names(eidx, ext@) =~= Seq::<Seq<char>>::empty());
                    assert(gathered + found_names(eidx, ext@) =~= gathered);
                }
            },
        }
        proof {
            assert(exts.take(i as int + 1).drop_last() =~= exts.take(i as int));
            assert(exts.take(i as int + 1).last() == ext@);
            assert(names.deep_view() == dedup_names(gather_names(eidx, exts.take(i as int + 1))));
        }
        i = i + 1;
    }
    proof {
        assert(exts.take(extensions@.len() as int) =~= exts);
    }
    Ok(resolve_languages(&idx.languages, &names))
}

/// What `detect_language_by_filename` reports: the names of the languages
/// registering exactly this filename.
pub open spec fn by_filename_names(idx: LinguistIndex, filename: Seq<char>) -> Seq<Seq<char>> {
    found_names(idx.filename_index@, filename)
}

/// Detects programming language(s) by exact filename match.
///
/// Returns the languages that list the path's filename component verbatim;
/// the match is exact and case-sensitive.
pub fn detect_language_by_filename(idx: &LinguistIndex, filepath: &str) -> (r: Result<
    Vec<DetectedLanguage>,
    LinguistError,
>)
    ensures
        filename_of(filepath@).len() == 0 ==> r == Err::<Vec<DetectedLanguage>, LinguistError>(
            LinguistError::NoFilename,
        ),
        filename_of(filepath@).len() > 0 ==> (r matches Ok(langs) && langs.deep_view()
            == resolve_names(idx.languages@, by_filename_names(*idx, filename_of(filepath@)))),
{
    let filename = match get_filename_from_path(filepath) {
        Ok(f) => f,
        Err(e) => {
            return Err(e);
        },
    };
    match assoc_find(&idx.filename_index, filename.as_str()) {
        Some(bucket) => Ok(resolve_languages(&idx.languages, bucket)),
        None => {
            proof {
                assert(resolve_names(
                    idx.languages@,
                    by_filename_names(*idx, filename_of(filepath@)),
                ) =~= Seq::<(Seq<char>, LanguageModel)>::empty());
            }
            Ok(Vec::new())
        },
    }
}

/// The outcome of content-based disambiguation at the specification level.
pub ghost enum DisambOutcome {
    /// The names of the rule that matched (empty when no rule matched, or no
    /// candidate extension has a registered block).
    Names(Seq<Seq<char>>),
    /// A consulted rule references an undefined named pattern.
    MissingNamed(Seq<char>),
    /// A consulted pattern string does not compile.
    BadRegex(Seq<char>),
}

/// The language names a rule resolves to when it matches.
pub open spec fn rule_languages(rule: HeuristicRule) -> Seq<Seq<char>> {
    match rule.language {
        Some(ns) => ns.deep_view(),
        None => Seq::empty(),
    }
}

/// Tries the rules of one block in order: the first rule that matches
/// decides; `None` when no rule matches.
pub open spec fn scan_rules(
    named: Seq<(String, Vec<String>)>,
    rules: Seq<HeuristicRule>,
    content: Seq<char>,
) -> Option<DisambOutcome>
    decreases rules.len(),
{
    if rules.len() == 0 {
        None
    } else {
        match eval_rule(named, rules[0], content) {
            EvalOutcome::Match => Some(DisambOutcome::Names(rule_languages(rules[0]))),
            EvalOutcome::NoMatch => scan_rules(named, rules.drop_first(), content),
            EvalOutcome::MissingNamed(n) => Some(DisambOutcome::MissingNamed(n)),
            EvalOutcome::BadRegex(p) => Some(DisambOutcome::BadRegex(p)),
        }
    }
}

/// Tries the registered blocks in order; a block whose rules all fail passes
/// the turn to the next block, and a position out of range is skipped.
pub open spec fn scan_blocks(
    named: Seq<(String, Vec<String>)>,
    blocks: Seq<Disambiguation>,
    positions: Seq<usize>,
    content: Seq<char>,
) -> DisambOutcome
    decreases positions.len(),
{
    if positions.len() == 0 {
        DisambOutcome::Names(Seq::empty())
    } else if positions[0] < blocks.len() {
        match scan_rules(named, blocks[positions[0] as int].rules@, content) {
            Some(o) => o,
            None => scan_blocks(named, blocks, positions.drop_first(), content),
        }
    } else {
        scan_blocks(named, blocks, positions.drop_first(), content)
    }
}

/// Only the first candidate extension with any registered block is
/// consulted; when its blocks yield nothing, less specific extensions are
/// not retried.
pub open spec fn scan_extensions(
    idx: LinguistIndex,
    exts: Seq<Seq<char>>,
    content: Seq<char>,
) -> DisambOutcome
    decreases exts.len(),
{
    if exts.len() == 0 {
        DisambOutcome::Names(Seq::empty())
    } else if found_indices(idx.disambiguation_index@, exts[0]).len() > 0 {
        scan_blocks(
            idx.named_patterns@,
            idx.disambiguations@,
            found_indices(idx.disambiguation_index@, exts[0]),
            content,
        )
    } else {
        scan_extensions(idx, exts.drop_first(), content)
    }
}

/// What `disambiguate` decides for a filename and content.
pub open spec fn disambiguation_outcome(
    idx: LinguistIndex,
    filename: Seq<char>,
    content: Seq<char>,
) -> DisambOutcome {
    scan_extensions(idx, extensions_of(filename), content)
}

/// How a disambiguation outcome appears as an executable result.
pub open spec fn disamb_matches(
    langs: Seq<(String, Language)>,
    m: DisambOutcome,
    r: Result<Vec<DetectedLanguage>, LinguistError>,
) -> bool {
    match m {
        DisambOutcome::Names(ns) => r matches Ok(l) && l.deep_view() == resolve_names(langs, ns),
        DisambOutcome::MissingNamed(n) => r matches Err(e) && e matches
            LinguistError::MissingNamedPattern(s) && s@ == n,
        DisambOutcome::BadRegex(p) => r matches Err(e) && e matches LinguistError::InvalidRegex {
            pattern,
            error,
        } && pattern@ == p,
    }
}

/// Runs the rules of the blocks at `positions` against the content; the
/// first rule that matches resolves its languages against the table.
fn run_blocks(
    languages: &Vec<(String, Language)>,
    blocks: &Vec<Disambiguation>,
    named: &Vec<(String, Vec<String>)>,
    positions: &Vec<usize>,
    content: &str,
) -> (r: Result<Vec<DetectedLanguage>, LinguistError>)
    ensures
        disamb_matches(languages@, scan_blocks(named@, blocks@, positions@, content@), r),
{
    let ghost ps = positions@;
    proof {
        assert(ps.skip(0) =~= ps);
    }
    let mut k: usize = 0;
    while k < positions.len()
        invariant
            k <= positions.len(),
            ps == positions@,
            scan_blocks(named@, blocks@, ps, content@) == scan_blocks(
                named@,
                blocks@,
                ps.skip(k as int),
                content@,
            ),
        decreases positions.len() - k,
    {
        proof {
            assert(ps.skip(k as int)[0] == ps[k as int]);
        }
        let p = positions[k];
        if p < blocks.len() {
            let block = &blocks[p];
            let ghost rules = block.rules@;
            proof {
                assert(rules.skip(0) =~= rules);
            }
            let mut t: usize = 0;
            while t < block.rules.len()
                invariant
                    t <= block.rules.len(),
                    ps == positions@,
                    k < ps.len(),
                    (ps[k as int] as int) < blocks@.len(),
                    rules == blocks@[ps[k as int] as int].rules@,
                    rules == block.rules@,
                    scan_blocks(named@, blocks@, ps, content@) == scan_blocks(
                        named@,
                        blocks@,
                        ps.skip(k as int),
                        content@,
                    ),
                    scan_rules(named@, rules, content@) == scan_rules(
                        named@,
                        rules.skip(t as int),
                        content@,
                    ),
                decreases block.rules.len() - t,
            {
                proof {
                    assert(rules.skip(t as int)[0] == rules[t as int]);
                }
                let rule = &block.rules[t];
                match crate::rules::evaluate_rule(rule, content, named) {
                    Ok(true) => {
                        proof {
                            assert(ps.skip(k as int)[0] == ps[k as int]);
                            assert(scan_rules(named@, rules, content@) == Some(
                                DisambOutcome::Names(rule_languages(rules[t as int])),
                            ));
                            assert(scan_blocks(named@, blocks@, ps, content@)
                                == DisambOutcome::Names(rule_languages(rules[t as int])));
                        }
                        match &rule.language {
                            Some(ns) => {
                                let out = resolve_languages(languages, ns);
                                proof {
                                    assert(rule_languages(rules[t as int]) == ns.deep_view());
                                }
                                return Ok(out);
                            },
                            None => {
                                let out: Vec<DetectedLanguage> = Vec::new();
                                proof {
                                    assert(resolve_names(languages@, rule_languages(*rule))
                                        =~= Seq::<(Seq<char>, LanguageModel)>::empty());
                                    assert(out.deep_view() =~= Seq::<
                                        (Seq<char>, LanguageModel),
                                    >::empty());
                                }
                                return Ok(out);
                            },
                        }
                    },
                    Ok(false) => {
                        proof {
                            assert(rules.skip(t as int).drop_first() =~= rules.skip(t as int + 1));
                        }
                    },
                    Err(e) => {
                        proof {
                            assert(ps.skip(k as int)[0] == ps[k as int]);
                            assert(scan_rules(named@, rules, content@) is Some);
                            assert(scan_blocks(named@, blocks@, ps, content@) == scan_rules(
                                named@,
                                rules,
                                content@,
                            )->0);
                        }
                        return Err(e);
                    },
                }
                t = t + 1;
            }
            proof {
                assert(rules.skip(block.rules@.len() as int) =~= Seq::<HeuristicRule>::empty());
                assert(scan_rules(named@, rules, content@) is None);
                assert(ps.skip(k as int).drop_first() =~= ps.skip(k as int + 1));
            }
        } else {
            proof {
                assert(ps.skip(k as int).drop_first() =~= ps.skip(k as int + 1));
            }
        }
        k = k + 1;
    }
    let out: Vec<DetectedLanguage> = Vec::new();
    proof {
        assert(ps.skip(positions@.len() as int) =~= Seq::<usize>::empty());
        assert(resolve_names(languages@, Seq::empty()) =~= Seq::<
            (Seq<char>, LanguageModel),
        >::empty());
        assert(out.deep_view() =~= Seq::<(Seq<char>, LanguageModel)>::empty());
    }
    Ok(out)
}

/// Disambiguates between multiple languages for a file using heuristic
/// rules on its content.
///
/// The candidate extensions are tried from most specific to least specific;
/// the first one with registered disambiguation blocks is consulted, and
/// within it the first rule that matches the content decides. No matching
/// rule, or no registered block, yields an empty result, not an error; an
/// undefined named pattern or a malformed heuristic pattern is an error.
pub fn disambiguate(idx: &LinguistIndex, filepath: &str, file_contents: &str) -> (r: Result<
    Vec<DetectedLanguage>,
    LinguistError,
>)
    ensures
        filename_of(filepath@).len() == 0 ==> r == Err::<Vec<DetectedLanguage>, LinguistError>(
            LinguistError::NoFilename,
        ),
        filename_of(filepath@).len() > 0 ==> disamb_matches(
            idx.languages@,
            disambiguation_outcome(*idx, filename_of(filepath@), file_contents@),
            r,
        ),
{
    let filename = match get_filename_from_path(filepath) {
        Ok(f) => f,
        Err(e) => {
            return Err(e);
        },
    };
    let extensions = extract_extensions(filename.as_str());
    let ghost exts = extensions.deep_view();
    proof {
        assert(exts.skip(0) =~= exts);
    }
    let mut i: usize = 0;
    while i < extensions.len()
        invariant
            i <= extensions.len(),
            exts == extensions.deep_view(),
            exts == extensions_of(filename_of(filepath@)),
            filename_of(filepath@).len() > 0,
            scan_extensions(*idx, exts, file_contents@) == scan_extensions(
                *idx,
                exts.skip(i as int),
                file_contents@,
            ),
        decreases extensions.len() - i,
    {
        proof {
            assert(exts.skip(i as int)[0] == exts[i as int]);
        }
        let ext = &extensions[i];
        match assoc_find(&idx.disambiguation_index, ext.as_str()) {
            Some(positions) => {
                if positions.len() > 0 {
                    proof {
                        assert(found_indices(idx.disambiguation_index@, exts[i as int])
                            == positions@);
                        assert(scan_extensions(*idx, exts.skip(i as int), file_contents@)
                            == scan_blocks(
                            idx.named_patterns@,
                            idx.disambiguations@,
                            positions@,
                            file_contents@,
                        ));
                    }
                    return run_blocks(
                        &idx.languages,
                        &idx.disambiguations,
                        &idx.named_patterns,
                        positions,
                        file_contents,
                    );
                }
                proof {
                    assert(exts.skip(i as int).drop_first() =~= exts.skip(i as int + 1));
                }
            },
            None => {
                proof {
                    assert(found_indices(idx.disambiguation_index@, exts[i as int]).len() == 0);
                    assert(exts.skip(i as int).drop_first() =~= exts.skip(i as int + 1));
                }
            },
        }
        i = i + 1;
    }
    let out: Vec<DetectedLanguage> = Vec::new();
    proof {
        assert(exts.skip(extensions@.len() as int) =~= Seq::<Seq<char>>::empty());
        assert(resolve_names(idx.languages@, Seq::empty()) =~= Seq::<
            (Seq<char>, LanguageModel),
        >::empty());
        assert(out.deep_view() =~= Seq::<(Seq<char>, LanguageModel)>::empty());
    }
    Ok(out)
}

/// Whether any of the vendor patterns that compile finds an occurrence in
/// the path.
pub open spec fn vendor_match(patterns: Seq<String>, path: Seq<char>) -> bool {
    exists|i: int|
        0 <= i < patterns.len() && regex_valid(#[trigger] patterns[i]@) && regex_found(
            patterns[i]@,
            path,
        )
}

/// Checks if a file path is a vendored/third-party file.
///
/// True exactly when the full path matches at least one vendor pattern
/// (unanchored search); pattern order is irrelevant. A pattern that does not
/// compile never matches — vendor matching is best-effort — and a string
/// path is always acceptable, so the call always succeeds.
pub fn is_vendored(idx: &LinguistIndex, filepath: &str) -> (r: Result<bool, LinguistError>)
    ensures
        r == Ok::<bool, LinguistError>(vendor_match(idx.vendor_patterns@, filepath@)),
{
    let mut i: usize = 0;
    while i < idx.vendor_patterns.len()
        invariant
            i <= idx.vendor_patterns.len(),
            forall|j: int|
                0 <= j < i ==> !(regex_valid(#[trigger] idx.vendor_patterns@[j]@) && regex_found(
                    idx.vendor_patterns@[j]@,
                    filepath@,
                )),
        decreases idx.vendor_patterns.len() - i,
    {
        let p = &idx.vendor_patterns[i];
        match crate::patterns::regex_search(p.as_str(), filepath) {
            Ok(true) => {
                proof {
                    assert(regex_valid(idx.vendor_patterns@[i as int]@) && regex_found(
                        idx.vendor_patterns@[i as int]@,
                        filepath@,
                    ));
                }
                return Ok(true);
            },
            Ok(false) => {},
            Err(_) => {},
        }
        i = i + 1;
    }
    Ok(false)
}

} // verus!
