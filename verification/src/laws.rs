//! Properties of the classifier that hold for every dataset, stated and
//! proved over the same specification functions the public contracts use.

use vstd::prelude::*;

use crate::indexed::{assoc_lookup, found_indices, found_names, lang_keys, names_with_key, LinguistIndex};
use crate::rules::{eval_all, eval_rule, EvalOutcome};
use crate::types::{HeuristicRule, Language};
use crate::utils::extensions_of;
use crate::{
    by_extension_names, dedup_names, gather_names, resolve_names, scan_extensions, vendor_match,
    DisambOutcome,
};

verus! {

/// Each name gathered for a filename comes from the bucket of one of its
/// candidate extensions.
proof fn lemma_gather_membership(
    index: Seq<(String, Vec<String>)>,
    exts: Seq<Seq<char>>,
    x: Seq<char>,
)
    requires
        gather_names(index, exts).contains(x),
    ensures
        exists|e: Seq<char>| exts.contains(e) && found_names(index, e).contains(x),
    decreases exts.len(),
{
    let g = gather_names(index, exts);
    let front = gather_names(index, exts.drop_last());
    let bucket = found_names(index, exts.last());
    let w = choose|w: int| 0 <= w < g.len() && g[w] == x;
    if w < front.len() {
        assert(front[w] == x);
        lemma_gather_membership(index, exts.drop_last(), x);
        let e = choose|e: Seq<char>|
            exts.drop_last().contains(e) && found_names(index, e).contains(x);
        let we = choose|we: int| 0 <= we < exts.len() - 1 && #[trigger] exts.drop_last()[we] == e;
        assert(exts[we] == e);
        assert(exts.contains(e));
    } else {
        assert(bucket[w - front.len()] == x);
        assert(bucket.contains(x));
        assert(exts[exts.len() - 1] == exts.last());
        assert(exts.contains(exts.last()));
    }
}

/// Every name of an entry of the language table is found by a lookup.
proof fn lemma_entry_key_found(langs: Seq<(String, Language)>, i: int)
    requires
        0 <= i < langs.len(),
    ensures
        assoc_lookup(langs, langs[i].0@) is Some,
    decreases i,
{
    if langs[0].0@ == langs[i].0@ {
    } else {
        assert(i > 0);
        assert(langs.drop_first()[i - 1] == langs[i]);
        lemma_entry_key_found(langs.drop_first(), i - 1);
    }
}

/// A name that some language registers for a key is a name of the table.
proof fn lemma_registered_name_found(
    langs: Seq<(String, Language)>,
    key: Seq<char>,
    use_extensions: bool,
    n: Seq<char>,
)
    requires
        names_with_key(langs, key, use_extensions).contains(n),
    ensures
        assoc_lookup(langs, n) is Some,
    decreases langs.len(),
{
    let all = names_with_key(langs, key, use_extensions);
    let front = names_with_key(langs.drop_last(), key, use_extensions);
    let w = choose|w: int| 0 <= w < all.len() && all[w] == n;
    if w < front.len() {
        assert(front[w] == n);
        lemma_registered_name_found(langs.drop_last(), key, use_extensions, n);
        lemma_lookup_some_has_entry(langs.drop_last(), n);
        let m2 = choose|m2: int|
            0 <= m2 < langs.len() - 1 && #[trigger] langs.drop_last()[m2].0@ == n;
        assert(langs[m2] == langs.drop_last()[m2]);
        lemma_entry_key_found(langs, m2);
    } else {
        assert(all[w] == langs.last().0@);
        assert(langs[langs.len() - 1] == langs.last());
        lemma_entry_key_found(langs, langs.len() - 1);
    }
}

/// A successful lookup means some entry carries the key.
proof fn lemma_lookup_some_has_entry<V>(entries: Seq<(String, V)>, key: Seq<char>)
    requires
        assoc_lookup(entries, key) is Some,
    ensures
        exists|m: int| 0 <= m < entries.len() && #[trigger] entries[m].0@ == key,
    decreases entries.len(),
{
    if entries.len() > 0 {
        if entries[0].0@ == key {
        } else {
            lemma_lookup_some_has_entry(entries.drop_first(), key);
            let m = choose|m: int|
                0 <= m < entries.len() - 1 && #[trigger] entries.drop_first()[m].0@ == key;
            assert(entries[m + 1].0@ == key);
        }
    }
}

/// A name found in a bucket of a candidate extension is gathered.
proof fn lemma_gather_membership_rev(
    index: Seq<(String, Vec<String>)>,
    exts: Seq<Seq<char>>,
    e: Seq<char>,
    x: Seq<char>,
)
    requires
        exts.contains(e),
        found_names(index, e).contains(x),
    ensures
        gather_names(index, exts).contains(x),
    decreases exts.len(),
{
    let g = gather_names(index, exts);
    let front = gather_names(index, exts.drop_last());
    let we = choose|we: int| 0 <= we < exts.len() && exts[we] == e;
    if we == exts.len() - 1 && exts.last() == e {
        let w = choose|w: int|
            0 <= w < found_names(index, e).len() && #[trigger] found_names(index, e)[w] == x;
        assert(g[front.len() as int + w] == x);
    } else {
        assert(exts.drop_last()[we] == e);
        assert(exts.drop_last().contains(e));
        lemma_gather_membership_rev(index, exts.drop_last(), e, x);
        let w = choose|w: int| 0 <= w < front.len() && #[trigger] front[w] == x;
        assert(g[w] == x);
    }
}

/// A name is registered for a key exactly when some entry of the language
/// table carries that name and lists the key.
pub proof fn lemma_names_with_key_membership(
    langs: Seq<(String, Language)>,
    key: Seq<char>,
    use_extensions: bool,
    n: Seq<char>,
)
    ensures
        names_with_key(langs, key, use_extensions).contains(n) <==> exists|i: int|
            0 <= i < langs.len() && (#[trigger] langs[i]).0@ == n && lang_keys(
                langs[i].1,
                use_extensions,
            ).contains(key),
    decreases langs.len(),
{
    if langs.len() > 0 {
        let all = names_with_key(langs, key, use_extensions);
        let front = names_with_key(langs.drop_last(), key, use_extensions);
        lemma_names_with_key_membership(langs.drop_last(), key, use_extensions, n);
        if all.contains(n) {
            let w = choose|w: int| 0 <= w < all.len() && all[w] == n;
            if w < front.len() {
                assert(front[w] == n);
                let i = choose|i: int|
                    0 <= i < langs.len() - 1 && (#[trigger] langs.drop_last()[i]).0@ == n
                        && lang_keys(langs.drop_last()[i].1, use_extensions).contains(key);
                assert(langs[i] == langs.drop_last()[i]);
                assert((langs[i]).0@ == n && lang_keys(langs[i].1, use_extensions).contains(key));
            } else {
                assert(all[w] == langs.last().0@);
                assert(langs[langs.len() - 1] == langs.last());
                assert((langs[langs.len() - 1]).0@ == n && lang_keys(
                    langs[langs.len() - 1].1,
                    use_extensions,
                ).contains(key));
            }
        }
        if exists|i: int|
            0 <= i < langs.len() && (#[trigger] langs[i]).0@ == n && lang_keys(
                langs[i].1,
                use_extensions,
            ).contains(key) {
            let i = choose|i: int|
                0 <= i < langs.len() && (#[trigger] langs[i]).0@ == n && lang_keys(
                    langs[i].1,
                    use_extensions,
                ).contains(key);
            if i == langs.len() - 1 {
                assert(langs.last() == langs[i]);
                assert(all[front.len() as int] == n);
                assert(all.contains(n));
            } else {
                assert(langs.drop_last()[i] == langs[i]);
                assert(front.contains(n));
                let w = choose|w: int| 0 <= w < front.len() && #[trigger] front[w] == n;
                assert(all[w] == n);
                assert(all.contains(n));
            }
        }
    }
}

/// The filename lookup is an exact, character-for-character match: a
/// language is reported for a filename exactly when its entry lists that
/// very string — any other filename, in particular a case variant, is a
/// different key.
pub proof fn lemma_by_filename_exact(idx: LinguistIndex, filename: Seq<char>, n: Seq<char>)
    requires
        idx.well_indexed(),
    ensures
        crate::by_filename_names(idx, filename).contains(n) <==> exists|i: int|
            0 <= i < idx.languages@.len() && (#[trigger] idx.languages@[i]).0@ == n && lang_keys(
                idx.languages@[i].1,
                false,
            ).contains(filename),
{
    lemma_names_with_key_membership(idx.languages@, filename, false, n);
}

/// A language is reported for a filename's extensions exactly when some
/// candidate extension of the filename is listed by that language's entry.
pub proof fn lemma_by_extension_membership(idx: LinguistIndex, filename: Seq<char>, n: Seq<char>)
    requires
        idx.well_indexed(),
    ensures
        by_extension_names(idx, filename).contains(n) <==> exists|e: Seq<char>, i: int|
            #![trigger lang_keys(idx.languages@[i].1, true).contains(e)]
            extensions_of(filename).contains(e) && 0 <= i < idx.languages@.len()
                && idx.languages@[i].0@ == n && lang_keys(idx.languages@[i].1, true).contains(e),
{
    let g = gather_names(idx.extension_index@, extensions_of(filename));
    crate::lemma_dedup_contains(g, n);
    if g.contains(n) {
        lemma_gather_membership(idx.extension_index@, extensions_of(filename), n);
        let e = choose|e: Seq<char>|
            extensions_of(filename).contains(e) && found_names(idx.extension_index@, e).contains(
                n,
            );
        lemma_names_with_key_membership(idx.languages@, e, true, n);
    }
    if exists|e: Seq<char>, i: int|
        #![trigger lang_keys(idx.languages@[i].1, true).contains(e)]
        extensions_of(filename).contains(e) && 0 <= i < idx.languages@.len()
            && idx.languages@[i].0@ == n && lang_keys(idx.languages@[i].1, true).contains(e) {
        let (e, i): (Seq<char>, int) = choose|e: Seq<char>, i: int|
            #![trigger lang_keys(idx.languages@[i].1, true).contains(e)]
            extensions_of(filename).contains(e) && 0 <= i < idx.languages@.len()
                && idx.languages@[i].0@ == n && lang_keys(idx.languages@[i].1, true).contains(e);
        lemma_names_with_key_membership(idx.languages@, e, true, n);
        assert(found_names(idx.extension_index@, e).contains(n));
        lemma_gather_membership_rev(idx.extension_index@, extensions_of(filename), e, n);
    }
}

/// An unambiguous registered extension yields exactly one entry, and that
/// entry is the dataset's: when the candidate extensions of a filename
/// gather exactly one language name, the extension lookup reports that
/// language alone, with its definition from the table.
pub proof fn lemma_unambiguous_extension(idx: LinguistIndex, filename: Seq<char>, name: Seq<char>)
    requires
        idx.well_indexed(),
        gather_names(idx.extension_index@, extensions_of(filename)) == seq![name],
    ensures
        by_extension_names(idx, filename) == seq![name],
        resolve_names(idx.languages@, seq![name]).len() == 1,
        resolve_names(idx.languages@, seq![name])[0].0 == name,
        resolve_names(idx.languages@, seq![name])[0].1 == assoc_lookup(
            idx.languages@,
            name,
        )->0@,
{
    let single = seq![name];
    assert(single.drop_last() =~= Seq::<Seq<char>>::empty());
    assert(!single.drop_last().contains(single.last()));
    assert(dedup_names(Seq::<Seq<char>>::empty()) =~= Seq::<Seq<char>>::empty());
    assert(dedup_names(single) =~= single);
    assert(single[0] == name);
    assert(single.contains(name));
    lemma_gather_membership(idx.extension_index@, extensions_of(filename), name);
    let e = choose|e: Seq<char>|
        extensions_of(filename).contains(e) && found_names(idx.extension_index@, e).contains(name);
    assert(found_names(idx.extension_index@, e) == names_with_key(idx.languages@, e, true));
    lemma_registered_name_found(idx.languages@, e, true, name);
    assert(single.drop_first() =~= Seq::<Seq<char>>::empty());
    assert(resolve_names(idx.languages@, Seq::<Seq<char>>::empty()) =~= Seq::<
        (Seq<char>, crate::types::LanguageModel),
    >::empty());
    let def = assoc_lookup(idx.languages@, name)->0;
    assert(resolve_names(idx.languages@, single) =~= seq![(name, def@)]);
}

/// Deduplication keeps the order of first occurrences: when the first
/// occurrence of `a` precedes the first occurrence of `b`, `a` stands
/// before `b` in the deduplicated sequence.
pub proof fn lemma_dedup_keeps_first_order(s: Seq<Seq<char>>, a: Seq<char>, b: Seq<char>, ia: int, ib: int)
    requires
        0 <= ia < ib < s.len(),
        s[ia] == a,
        s[ib] == b,
        forall|j: int| 0 <= j < ia ==> s[j] != a,
        forall|j: int| 0 <= j < ib ==> s[j] != b,
    ensures
        exists|p: int, q: int|
            #![trigger dedup_names(s)[p], dedup_names(s)[q]]
            0 <= p < q < dedup_names(s).len() && dedup_names(s)[p] == a && dedup_names(s)[q] == b,
    decreases s.len(),
{
    let d = dedup_names(s);
    let s2 = s.drop_last();
    let d2 = dedup_names(s2);
    assert(a != b);
    if ib == s.len() - 1 {
        assert(s.last() == b);
        assert(!s2.contains(b)) by {
            if s2.contains(b) {
                let w = choose|w: int| 0 <= w < s2.len() && #[trigger] s2[w] == b;
                assert(s[w] == b);
            }
        }
        assert(d == d2.push(b));
        assert(s2[ia] == a);
        assert(s2.contains(a));
        crate::lemma_dedup_contains(s2, a);
        let p = choose|p: int| 0 <= p < d2.len() && #[trigger] d2[p] == a;
        assert(d[p] == a);
        assert(d[d.len() - 1] == b);
        assert(p < d.len() - 1);
    } else {
        assert(s2[ia] == a && s2[ib] == b);
        assert(forall|j: int| 0 <= j < ia ==> s2[j] != a);
        assert(forall|j: int| 0 <= j < ib ==> s2[j] != b);
        lemma_dedup_keeps_first_order(s2, a, b, ia, ib);
        let (p, q): (int, int) = choose|p: int, q: int|
            #![trigger d2[p], d2[q]]
            0 <= p < q < d2.len() && d2[p] == a && d2[q] == b;
        if s2.contains(s.last()) {
            assert(d == d2);
        } else {
            assert(d == d2.push(s.last()));
            assert(d[p] == a && d[q] == b);
        }
    }
}

/// Extension specificity: when the first gathered occurrence of language
/// name `a` (from a more specific extension's bucket) precedes the first
/// gathered occurrence of `b`, then `a` stands before `b` in what
/// `detect_language_by_extension` reports.
pub proof fn lemma_extension_specificity(
    idx: LinguistIndex,
    filename: Seq<char>,
    a: Seq<char>,
    b: Seq<char>,
    ia: int,
    ib: int,
)
    requires
        ({
            let g = gather_names(idx.extension_index@, extensions_of(filename));
            &&& 0 <= ia < ib < g.len()
            &&& g[ia] == a
            &&& g[ib] == b
            &&& forall|j: int| 0 <= j < ia ==> g[j] != a
            &&& forall|j: int| 0 <= j < ib ==> g[j] != b
        }),
    ensures
        exists|p: int, q: int|
            #![trigger by_extension_names(idx, filename)[p], by_extension_names(idx, filename)[q]]
            0 <= p < q < by_extension_names(idx, filename).len() && by_extension_names(
                idx,
                filename,
            )[p] == a && by_extension_names(idx, filename)[q] == b,
{
    let g = gather_names(idx.extension_index@, extensions_of(filename));
    lemma_dedup_keeps_first_order(g, a, b, ia, ib);
    assert(by_extension_names(idx, filename) == dedup_names(g));
    let (p, q): (int, int) = choose|p: int, q: int|
        #![trigger dedup_names(g)[p], dedup_names(g)[q]]
        0 <= p < q < dedup_names(g).len() && dedup_names(g)[p] == a && dedup_names(g)[q] == b;
    assert(by_extension_names(idx, filename)[p] == a);
    assert(by_extension_names(idx, filename)[q] == b);
}

/// Vendor matching is monotonic in pattern coverage: a path vendored under
/// some patterns stays vendored under any larger pattern list.
pub proof fn lemma_vendored_monotonic(smaller: Seq<String>, larger: Seq<String>, path: Seq<char>)
    requires
        forall|i: int| 0 <= i < smaller.len() ==> larger.contains(#[trigger] smaller[i]),
    ensures
        vendor_match(smaller, path) ==> vendor_match(larger, path),
{
    if vendor_match(smaller, path) {
        let i = choose|i: int|
            0 <= i < smaller.len() && regex_valid_found(#[trigger] smaller[i]@, path);
        assert(larger.contains(smaller[i]));
        let j = choose|j: int| 0 <= j < larger.len() && #[trigger] larger[j] == smaller[i];
        assert(crate::patterns::regex_valid(larger[j]@) && crate::patterns::regex_found(
            larger[j]@,
            path,
        ));
    }
}

/// Both halves of a vendor hit, bundled so a single witness carries them.
pub open spec fn regex_valid_found(pattern: Seq<char>, path: Seq<char>) -> bool {
    crate::patterns::regex_valid(pattern) && crate::patterns::regex_found(pattern, path)
}

/// AND-composition: a rule carrying `and: [a, b]` matches content exactly
/// when both `a` and `b` individually match that content.
pub proof fn lemma_and_composition(
    named: Seq<(String, Vec<String>)>,
    rule: HeuristicRule,
    a: HeuristicRule,
    b: HeuristicRule,
    content: Seq<char>,
)
    requires
        rule.and matches Some(subs) && subs@ == seq![a, b],
    ensures
        eval_rule(named, rule, content) == EvalOutcome::Match <==> (eval_rule(named, a, content)
            == EvalOutcome::Match && eval_rule(named, b, content) == EvalOutcome::Match),
{
    let subs = rule.and->0@;
    assert(subs[0] == a);
    assert(subs.drop_first() =~= seq![b]);
    assert(seq![b][0] == b);
    assert(seq![b].drop_first() =~= Seq::<HeuristicRule>::empty());
    assert(eval_all(named, Seq::<HeuristicRule>::empty(), content) == EvalOutcome::Match);
    assert(eval_rule(named, rule, content) == eval_all(named, subs, content));
    let ea = eval_rule(named, a, content);
    let eb = eval_rule(named, b, content);
    if ea == EvalOutcome::Match {
        assert(eval_all(named, subs, content) == eval_all(named, subs.drop_first(), content));
        assert(eval_all(named, subs.drop_first(), content) == eval_all(named, seq![b], content));
        if eb == EvalOutcome::Match {
            assert(eval_all(named, seq![b], content) == eval_all(
                named,
                seq![b].drop_first(),
                content,
            ));
        } else {
            assert(eval_all(named, seq![b], content) == eb);
        }
    } else {
        assert(eval_all(named, subs, content) == ea);
    }
}

/// A rule that references a named pattern the table does not define
/// evaluates to the missing-named-pattern error — never to a silent
/// mismatch.
pub proof fn lemma_missing_named_pattern(
    named: Seq<(String, Vec<String>)>,
    rule: HeuristicRule,
    content: Seq<char>,
)
    requires
        rule.and is None,
        rule.named_pattern matches Some(n) && assoc_lookup(named, n@) is None,
    ensures
        eval_rule(named, rule, content) == EvalOutcome::MissingNamed(rule.named_pattern->0@),
{
}

/// A file none of whose candidate extensions has a registered
/// disambiguation block needs no content-based disambiguation: the outcome
/// is an empty match, not an error.
pub proof fn lemma_no_registered_block(idx: LinguistIndex, exts: Seq<Seq<char>>, content: Seq<char>)
    requires
        forall|i: int|
            0 <= i < exts.len() ==> found_indices(
                idx.disambiguation_index@,
                #[trigger] exts[i],
            ).len() == 0,
    ensures
        scan_extensions(idx, exts, content) == DisambOutcome::Names(Seq::<Seq<char>>::empty()),
    decreases exts.len(),
{
    if exts.len() > 0 {
        assert(forall|i: int|
            0 <= i < exts.len() - 1 ==> #[trigger] exts.drop_first()[i] == exts[i + 1]);
        lemma_no_registered_block(idx, exts.drop_first(), content);
    }
}

} // verus!
