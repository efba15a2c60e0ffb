//! Derived lookup structures over the dataset.
//!
//! Four read-only indices are built in one pass each: filename to language
//! names, extension to language names, extension to disambiguation-block
//! positions, and the vendor patterns that actually compile. They are
//! association lists looked up by exact key; the builder's contract ties
//! every lookup to the dataset it was built from.

use vstd::prelude::*;
use vstd::string::StrSliceExecFns;
use vstd::string::StringExecFns;

use crate::patterns::regex_valid;
use crate::types::{Disambiguation, Heuristics, Language};

verus! {

/// Exact character-for-character string comparison.
pub(crate) fn str_eq(a: &str, b: &str) -> (r: bool)
    ensures
        r == (a@ == b@),
{
    let na = a.unicode_len();
    let nb = b.unicode_len();
    if na != nb {
        return false;
    }
    let mut i: usize = 0;
    while i < na
        invariant
            i <= na,
            na == a@.len(),
            na == b@.len(),
            forall|j: int| 0 <= j < i ==> a@[j] == b@[j],
        decreases na - i,
    {
        if a.get_char(i) != b.get_char(i) {
            return false;
        }
        i = i + 1;
    }
    proof {
        assert(a@ =~= b@);
    }
    true
}

/// First-match lookup in an association list keyed by strings.
pub open spec fn assoc_lookup<V>(entries: Seq<(String, V)>, key: Seq<char>) -> Option<V>
    decreases entries.len(),
{
    if entries.len() == 0 {
        None
    } else if entries[0].0@ == key {
        Some(entries[0].1)
    } else {
        assoc_lookup(entries.drop_first(), key)
    }
}

/// Finds the value stored under `key`, scanning in order.
pub fn assoc_find<'a, V>(entries: &'a Vec<(String, V)>, key: &str) -> (r: Option<&'a V>)
    ensures
        match r {
            Some(v) => assoc_lookup(entries@, key@) == Some(*v),
            None => assoc_lookup(entries@, key@) is None,
        },
{
    let ghost all = entries@;
    proof {
        assert(all.skip(0) =~= all);
    }
    let mut i: usize = 0;
    while i < entries.len()
        invariant
            i <= entries.len(),
            all == entries@,
            assoc_lookup(all, key@) == assoc_lookup(all.skip(i as int), key@),
        decreases entries.len() - i,
    {
        proof {
            assert(all.skip(i as int)[0] == all[i as int]);
        }
        if str_eq(entries[i].0.as_str(), key) {
            return Some(&entries[i].1);
        }
        proof {
            assert(all.skip(i as int).drop_first() =~= all.skip(i as int + 1));
        }
        i = i + 1;
    }
    proof {
        assert(all.skip(entries.len() as int) =~= Seq::<(String, V)>::empty());
    }
    None
}

/// Replacing the value at the first occurrence of a key changes lookups for
/// that key alone.
proof fn lemma_lookup_update<V>(entries: Seq<(String, V)>, pos: int, v: V, key: Seq<char>)
    requires
        0 <= pos < entries.len(),
        forall|j: int| 0 <= j < pos ==> entries[j].0@ != entries[pos].0@,
    ensures
        assoc_lookup(entries.update(pos, (entries[pos].0, v)), key) == (if key == entries[pos].0@ {
            Some(v)
        } else {
            assoc_lookup(entries, key)
        }),
    decreases entries.len(),
{
    let updated = entries.update(pos, (entries[pos].0, v));
    if pos == 0 {
        if entries[0].0@ == key {
        } else {
            assert(updated.drop_first() =~= entries.drop_first());
        }
    } else {
        assert(updated[0] == entries[0]);
        assert(updated.drop_first() =~= entries.drop_first().update(pos - 1, (entries[pos].0, v)));
        assert(entries.drop_first()[pos - 1] == entries[pos]);
        lemma_lookup_update(entries.drop_first(), pos - 1, v, key);
    }
}

/// The first occurrence of a key is what lookup under that key finds.
proof fn lemma_lookup_first<V>(entries: Seq<(String, V)>, pos: int)
    requires
        0 <= pos < entries.len(),
        forall|j: int| 0 <= j < pos ==> entries[j].0@ != entries[pos].0@,
    ensures
        assoc_lookup(entries, entries[pos].0@) == Some(entries[pos].1),
    decreases pos,
{
    if pos == 0 {
    } else {
        assert(entries.drop_first()[pos - 1] == entries[pos]);
        lemma_lookup_first(entries.drop_first(), pos - 1);
    }
}

/// Appending a fresh entry changes lookups only for keys not present before.
proof fn lemma_lookup_push<V>(entries: Seq<(String, V)>, entry: (String, V), key: Seq<char>)
    ensures
        assoc_lookup(entries.push(entry), key) == (if assoc_lookup(entries, key) is Some {
            assoc_lookup(entries, key)
        } else if key == entry.0@ {
            Some(entry.1)
        } else {
            None
        }),
    decreases entries.len(),
{
    let appended = entries.push(entry);
    assert(appended.len() == entries.len() + 1);
    if entries.len() == 0 {
        assert(appended[0] == entry);
        if entry.0@ == key {
            assert(assoc_lookup(appended, key) == Some(entry.1));
        } else {
            assert(appended.drop_first() =~= Seq::<(String, V)>::empty());
            assert(assoc_lookup(Seq::<(String, V)>::empty(), key) is None);
            assert(assoc_lookup(appended, key) is None);
        }
    } else {
        assert(appended[0] == entries[0]);
        if entries[0].0@ == key {
            assert(assoc_lookup(appended, key) == Some(entries[0].1));
            assert(assoc_lookup(entries, key) == Some(entries[0].1));
        } else {
            assert(appended.drop_first() =~= entries.drop_first().push(entry));
            lemma_lookup_push(entries.drop_first(), entry, key);
            assert(assoc_lookup(appended, key) == assoc_lookup(
                entries.drop_first().push(entry),
                key,
            ));
            assert(assoc_lookup(entries, key) == assoc_lookup(entries.drop_first(), key));
        }
    }
}

/// A key carried by no entry is not found.
proof fn lemma_lookup_absent<V>(entries: Seq<(String, V)>, key: Seq<char>)
    requires
        forall|j: int| 0 <= j < entries.len() ==> entries[j].0@ != key,
    ensures
        assoc_lookup(entries, key) is None,
    decreases entries.len(),
{
    if entries.len() > 0 {
        assert(forall|j: int|
            0 <= j < entries.drop_first().len() ==> #[trigger] entries.drop_first()[j] == entries[
                j + 1
            ]);
        lemma_lookup_absent(entries.drop_first(), key);
    }
}

/// No two elements of the sequence are the same string.
pub open spec fn distinct_seqs(s: Seq<Seq<char>>) -> bool {
    forall|i: int, j: int| 0 <= i < j < s.len() ==> s[i] != s[j]
}

/// The names stored in a bucket of a name index, empty when the key is
/// absent.
pub open spec fn found_names(entries: Seq<(String, Vec<String>)>, key: Seq<char>) -> Seq<Seq<char>> {
    match assoc_lookup(entries, key) {
        Some(v) => v.deep_view(),
        None => Seq::empty(),
    }
}

/// The block positions stored in a bucket of the disambiguation index,
/// empty when the key is absent.
pub open spec fn found_indices(entries: Seq<(String, Vec<usize>)>, key: Seq<char>) -> Seq<usize> {
    match assoc_lookup(entries, key) {
        Some(v) => v@,
        None => Seq::empty(),
    }
}

/// The extension list (or, with `use_extensions` false, the filename list)
/// that a language registers.
pub open spec fn lang_keys(l: Language, use_extensions: bool) -> Seq<Seq<char>> {
    if use_extensions {
        match l.extensions {
            Some(v) => v.deep_view(),
            None => Seq::empty(),
        }
    } else {
        match l.filenames {
            Some(v) => v.deep_view(),
            None => Seq::empty(),
        }
    }
}

/// The names of the languages that register `key` as an extension (or
/// filename), in language-table order.
pub open spec fn names_with_key(
    langs: Seq<(String, Language)>,
    key: Seq<char>,
    use_extensions: bool,
) -> Seq<Seq<char>>
    decreases langs.len(),
{
    if langs.len() == 0 {
        Seq::empty()
    } else {
        names_with_key(langs.drop_last(), key, use_extensions) + (if lang_keys(
            langs.last().1,
            use_extensions,
        ).contains(key) {
            seq![langs.last().0@]
        } else {
            Seq::empty()
        })
    }
}

/// Whether a disambiguation block applies to the extension.
pub open spec fn block_declares(d: Disambiguation, e: Seq<char>) -> bool {
    d.extensions.deep_view().contains(e)
}

/// The positions (in dataset order) of the disambiguation blocks that
/// declare the extension.
pub open spec fn blocks_with_extension(ds: Seq<Disambiguation>, e: Seq<char>) -> Seq<usize>
    decreases ds.len(),
{
    if ds.len() == 0 {
        Seq::empty()
    } else {
        blocks_with_extension(ds.drop_last(), e) + (if block_declares(ds.last(), e) {
            seq![(ds.len() - 1) as usize]
        } else {
            Seq::empty()
        })
    }
}

/// The subsequence of patterns that are valid regexes, in order.
pub open spec fn valid_patterns(ps: Seq<Seq<char>>) -> Seq<Seq<char>>
    decreases ps.len(),
{
    if ps.len() == 0 {
        Seq::empty()
    } else {
        valid_patterns(ps.drop_last()) + (if regex_valid(ps.last()) {
            seq![ps.last()]
        } else {
            Seq::empty()
        })
    }
}

/// The dataset invariant of the language table: no language lists the same
/// extension or the same filename twice.
pub open spec fn languages_wf(langs: Seq<(String, Language)>) -> bool {
    forall|i: int|
        0 <= i < langs.len() ==> distinct_seqs(lang_keys(#[trigger] langs[i].1, true))
            && distinct_seqs(lang_keys(langs[i].1, false))
}

/// The dataset invariant of the heuristics table: no block lists the same
/// extension twice.
pub open spec fn heuristics_wf(h: Heuristics) -> bool {
    forall|i: int|
        0 <= i < h.disambiguations@.len() ==> distinct_seqs(
            #[trigger] h.disambiguations@[i].extensions.deep_view(),
        )
}

/// Position of the first entry carrying `key`, if any.
fn find_first_key<V>(entries: &Vec<(String, V)>, key: &str) -> (r: Option<usize>)
    ensures
        match r {
            Some(pos) => pos < entries.len() && entries@[pos as int].0@ == key@ && (forall|j: int|
                0 <= j < pos ==> entries@[j].0@ != key@),
            None => forall|j: int| 0 <= j < entries@.len() ==> entries@[j].0@ != key@,
        },
{
    let mut i: usize = 0;
    while i < entries.len()
        invariant
            i <= entries.len(),
            forall|j: int| 0 <= j < i ==> entries@[j].0@ != key@,
        decreases entries.len() - i,
    {
        if str_eq(entries[i].0.as_str(), key) {
            return Some(i);
        }
        i = i + 1;
    }
    None
}

/// Appends `name` to the bucket stored under `key`, creating the bucket if
/// the key is new. Lookups under every other key are unchanged.
fn add_name_to_bucket(index: &mut Vec<(String, Vec<String>)>, key: &str, name: &str)
    ensures
        forall|e: Seq<char>|
            e != key@ ==> #[trigger] found_names(final(index)@, e) == found_names(old(index)@, e),
        found_names(final(index)@, key@) == found_names(old(index)@, key@).push(name@),
{
    let ghost orig = index@;
    match find_first_key(index, key) {
        Some(pos) => {
            let (k, mut names) = index.remove(pos);
            let ghost oldnames = names;
            names.push(String::from_str(name));
            let ghost newnames = names;
            index.insert(pos, (k, names));
            proof {
                lemma_lookup_first(orig, pos as int);
                assert(oldnames == orig[pos as int].1);
                assert(newnames.deep_view() =~= oldnames.deep_view().push(name@));
                assert(index@ =~= orig.update(pos as int, (orig[pos as int].0, newnames)));
                assert forall|e: Seq<char>| true implies #[trigger] assoc_lookup(index@, e) == (
                if e == orig[pos as int].0@ {
                    Some(newnames)
                } else {
                    assoc_lookup(orig, e)
                }) by {
                    lemma_lookup_update(orig, pos as int, newnames, e);
                }
                assert(found_names(index@, key@) == found_names(orig, key@).push(name@));
            }
        },
        None => {
            let mut names: Vec<String> = Vec::new();
            names.push(String::from_str(name));
            let ghost newnames = names;
            index.push((String::from_str(key), names));
            proof {
                assert(newnames.deep_view() =~= Seq::<Seq<char>>::empty().push(name@));
                let entry = index@.last();
                assert(index@ =~= orig.push(entry));
                assert forall|e: Seq<char>| true implies #[trigger] assoc_lookup(index@, e) == (
                if assoc_lookup(orig, e) is Some {
                    assoc_lookup(orig, e)
                } else if e == entry.0@ {
                    Some(entry.1)
                } else {
                    None
                }) by {
                    lemma_lookup_push(orig, entry, e);
                }
                assert(assoc_lookup(orig, key@) is None) by {
                    lemma_lookup_absent(orig, key@);
                }
                assert(found_names(index@, key@) == found_names(orig, key@).push(name@));
            }
        },
    }
}

/// Appends a block position to the bucket stored under `key`, creating the
/// bucket if the key is new. Lookups under every other key are unchanged.
fn add_pos_to_bucket(index: &mut Vec<(String, Vec<usize>)>, key: &str, block_pos: usize)
    ensures
        forall|e: Seq<char>|
            e != key@ ==> #[trigger] found_indices(final(index)@, e) == found_indices(
                old(index)@,
                e,
            ),
        found_indices(final(index)@, key@) == found_indices(old(index)@, key@).push(block_pos),
{
    let ghost orig = index@;
    match find_first_key(index, key) {
        Some(pos) => {
            let (k, mut positions) = index.remove(pos);
            let ghost oldpos = positions;
            positions.push(block_pos);
            let ghost newpos = positions;
            index.insert(pos, (k, positions));
            proof {
                lemma_lookup_first(orig, pos as int);
                assert(oldpos == orig[pos as int].1);
                assert(newpos@ =~= oldpos@.push(block_pos));
                assert(index@ =~= orig.update(pos as int, (orig[pos as int].0, newpos)));
                assert forall|e: Seq<char>| true implies #[trigger] assoc_lookup(index@, e) == (
                if e == orig[pos as int].0@ {
                    Some(newpos)
                } else {
                    assoc_lookup(orig, e)
                }) by {
                    lemma_lookup_update(orig, pos as int, newpos, e);
                }
            }
        },
        None => {
            let mut positions: Vec<usize> = Vec::new();
            positions.push(block_pos);
            index.push((String::from_str(key), positions));
            proof {
                let entry = index@.last();
                assert(index@ =~= orig.push(entry));
                assert forall|e: Seq<char>| true implies #[trigger] assoc_lookup(index@, e) == (
                if assoc_lookup(orig, e) is Some {
                    assoc_lookup(orig, e)
                } else if e == entry.0@ {
                    Some(entry.1)
                } else {
                    None
                }) by {
                    lemma_lookup_push(orig, entry, e);
                }
                assert(assoc_lookup(orig, key@) is None) by {
                    lemma_lookup_absent(orig, key@);
                }
            }
        },
    }
}

/// One pass over the language table, indexing languages by their extensions
/// (or, with `use_extensions` false, by their filenames).
fn index_languages(languages: &Vec<(String, Language)>, use_extensions: bool) -> (index: Vec<
    (String, Vec<String>),
>)
    requires
        forall|i: int|
            0 <= i < languages@.len() ==> distinct_seqs(
                lang_keys(#[trigger] languages@[i].1, use_extensions),
            ),
    ensures
        forall|e: Seq<char>| #![auto]
            found_names(index@, e) == names_with_key(languages@, e, use_extensions),
{
    let mut index: Vec<(String, Vec<String>)> = Vec::new();
    proof {
        assert forall|e: Seq<char>| #![auto]
            found_names(index@, e) == names_with_key(
                languages@.take(0),
                e,
                use_extensions,
            ) by {
            assert(languages@.take(0) =~= Seq::<(String, Language)>::empty());
        }
    }
    let mut i: usize = 0;
    while i < languages.len()
        invariant
            i <= languages.len(),
            forall|k: int|
                0 <= k < languages@.len() ==> distinct_seqs(
                    lang_keys(#[trigger] languages@[k].1, use_extensions),
                ),
            forall|e: Seq<char>| #![auto]
                found_names(index@, e) == names_with_key(
                    languages@.take(i as int),
                    e,
                    use_extensions,
                ),
        decreases languages.len() - i,
    {
        let pair = &languages[i];
        let name = &pair.0;
        let lang = &pair.1;
        let ghost keys = lang_keys(*lang, use_extensions);
        let keys_opt = if use_extensions {
            &lang.extensions
        } else {
            &lang.filenames
        };
        match keys_opt {
            Some(key_list) => {
                proof {
                    assert(keys == key_list.deep_view());
                }
                let mut j: usize = 0;
                while j < key_list.len()
                    invariant
                        j <= key_list.len(),
                        keys == key_list.deep_view(),
                        distinct_seqs(keys),
                        forall|e: Seq<char>| #![auto]
                            found_names(index@, e) == names_with_key(
                                languages@.take(i as int),
                                e,
                                use_extensions,
                            ) + (if keys.take(j as int).contains(e) {
                                seq![name@]
                            } else {
                                Seq::empty()
                            }),
                    decreases key_list.len() - j,
                {
                    let ghost before = index@;
                    let key = &key_list[j];
                    proof {
                        assert(keys[j as int] == key@);
                        assert(!keys.take(j as int).contains(key@));
                    }
                    add_name_to_bucket(&mut index, key.as_str(), name.as_str());
                    proof {
                        assert(keys.take(j as int + 1) =~= keys.take(j as int).push(key@));
                        assert forall|e: Seq<char>| #![auto]
                            found_names(index@, e) == names_with_key(
                                languages@.take(i as int),
                                e,
                                use_extensions,
                            ) + (if keys.take(j as int + 1).contains(e) {
                                seq![name@]
                            } else {
                                Seq::empty()
                            }) by {
                            if e == key@ {
                                assert(found_names(index@, e) == found_names(before, e).push(
                                    name@,
                                ));
                                assert(found_names(before, e) == names_with_key(
                                    languages@.take(i as int),
                                    e,
                                    use_extensions,
                                ));
                                assert(keys.take(j as int + 1).contains(e)) by {
                                    assert(keys.take(j as int + 1).last() == key@);
                                }
                                assert(found_names(index@, e) =~= names_with_key(
                                    languages@.take(i as int),
                                    e,
                                    use_extensions,
                                ) + seq![name@]);
                            } else {
                                assert(found_names(index@, e) == found_names(before, e));
                                assert(keys.take(j as int + 1).contains(e) == keys.take(
                                    j as int,
                                ).contains(e)) by {
                                    if keys.take(j as int).contains(e) {
                                        let w = choose|w: int|
                                            0 <= w < j && #[trigger] keys.take(j as int)[w] == e;
                                        assert(keys.take(j as int + 1)[w] == e);
                                    }
                                    if keys.take(j as int + 1).contains(e) {
                                        let w = choose|w: int|
                                            0 <= w < j + 1 && #[trigger] keys.take(
                                                j as int + 1,
                                            )[w] == e;
                                        assert(w < j);
                                        assert(keys.take(j as int)[w] == e);
                                    }
                                }
                            }
                        }
                    }
                    j = j + 1;
                }
                proof {
                    assert(keys.take(key_list.len() as int) =~= keys);
                }
            },
            None => {
                proof {
                    assert(keys =~= Seq::<Seq<char>>::empty());
                }
            },
        }
        proof {
            assert(languages@.take(i as int + 1).drop_last() =~= languages@.take(i as int));
            assert(languages@.take(i as int + 1).last() == languages@[i as int]);
            assert forall|e: Seq<char>| #![auto]
                found_names(index@, e) == names_with_key(
                    languages@.take(i as int + 1),
                    e,
                    use_extensions,
                ) by {
                if keys.contains(e) {
                    assert(names_with_key(languages@.take(i as int + 1), e, use_extensions)
                        == names_with_key(languages@.take(i as int), e, use_extensions)
                        + seq![name@]);
                    assert(found_names(index@, e) =~= names_with_key(
                        languages@.take(i as int),
                        e,
                        use_extensions,
                    ) + seq![name@]);
                } else {
                    assert(names_with_key(languages@.take(i as int + 1), e, use_extensions)
                        =~= names_with_key(languages@.take(i as int), e, use_extensions));
                    assert(found_names(index@, e) =~= names_with_key(
                        languages@.take(i as int),
                        e,
                        use_extensions,
                    ));
                }
            }
        }
        i = i + 1;
    }
    proof {
        assert(languages@.take(languages@.len() as int) =~= languages@);
    }
    index
}

/// One pass over the disambiguation blocks, indexing block positions by the
/// extensions each block declares.
fn index_disambiguations(ds: &Vec<Disambiguation>) -> (index: Vec<(String, Vec<usize>)>)
    requires
        forall|i: int|
            0 <= i < ds@.len() ==> distinct_seqs(#[trigger] ds@[i].extensions.deep_view()),
    ensures
        forall|e: Seq<char>| #![auto] found_indices(index@, e) == blocks_with_extension(ds@, e),
{
    let mut index: Vec<(String, Vec<usize>)> = Vec::new();
    proof {
        assert forall|e: Seq<char>| #![auto]
            found_indices(index@, e) == blocks_with_extension(ds@.take(0), e) by {
            assert(ds@.take(0) =~= Seq::<Disambiguation>::empty());
        }
    }
    let mut i: usize = 0;
    while i < ds.len()
        invariant
            i <= ds.len(),
            forall|k: int|
                0 <= k < ds@.len() ==> distinct_seqs(#[trigger] ds@[k].extensions.deep_view()),
            forall|e: Seq<char>| #![auto]
                found_indices(index@, e) == blocks_with_extension(ds@.take(i as int), e),
        decreases ds.len() - i,
    {
        let block = &ds[i];
        let ghost keys = block.extensions.deep_view();
        let mut j: usize = 0;
        while j < block.extensions.len()
            invariant
                j <= block.extensions.len(),
                i < ds.len(),
                keys == block.extensions.deep_view(),
                keys == ds@[i as int].extensions.deep_view(),
                distinct_seqs(keys),
                forall|e: Seq<char>| #![auto]
                    found_indices(index@, e) == blocks_with_extension(ds@.take(i as int), e) + (
                    if keys.take(j as int).contains(e) {
                        seq![i]
                    } else {
                        Seq::empty()
                    }),
            decreases block.extensions.len() - j,
        {
            let ghost before = index@;
            let key = &block.extensions[j];
            proof {
                assert(keys[j as int] == key@);
                assert(!keys.take(j as int).contains(key@));
            }
            add_pos_to_bucket(&mut index, key.as_str(), i);
            proof {
                assert(keys.take(j as int + 1) =~= keys.take(j as int).push(key@));
                assert forall|e: Seq<char>| #![auto]
                    found_indices(index@, e) == blocks_with_extension(ds@.take(i as int), e) + (
                    if keys.take(j as int + 1).contains(e) {
                        seq![i]
                    } else {
                        Seq::empty()
                    }) by {
                    if e == key@ {
                        assert(found_indices(index@, e) == found_indices(before, e).push(i));
                        assert(keys.take(j as int + 1).contains(e)) by {
                            assert(keys.take(j as int + 1).last() == key@);
                        }
                        assert(found_indices(index@, e) =~= blocks_with_extension(
                            ds@.take(i as int),
                            e,
                        ) + seq![i]);
                    } else {
                        assert(found_indices(index@, e) == found_indices(before, e));
                        assert(keys.take(j as int + 1).contains(e) == keys.take(
                            j as int,
                        ).contains(e)) by {
                            if keys.take(j as int).contains(e) {
                                let w = choose|w: int| 0 <= w < j && #[trigger] keys.take(j as int)[w] == e;
                                assert(keys.take(j as int + 1)[w] == e);
                            }
                            if keys.take(j as int + 1).contains(e) {
                                let w = choose|w: int|
                                    0 <= w < j + 1 && #[trigger] keys.take(j as int + 1)[w] == e;
                                assert(w < j);
                                assert(keys.take(j as int)[w] == e);
                            }
                        }
                    }
                }
            }
            j = j + 1;
        }
        proof {
            assert(keys.take(block.extensions@.len() as int) =~= keys);
            assert(ds@.take(i as int + 1).drop_last() =~= ds@.take(i as int));
            assert(ds@.take(i as int + 1).last() == ds@[i as int]);
            assert forall|e: Seq<char>| #![auto]
                found_indices(index@, e) == blocks_with_extension(ds@.take(i as int + 1), e) by {
                if keys.contains(e) {
                    assert(blocks_with_extension(ds@.take(i as int + 1), e)
                        == blocks_with_extension(ds@.take(i as int), e) + seq![i]);
                    assert(found_indices(index@, e) =~= blocks_with_extension(
                        ds@.take(i as int),
                        e,
                    ) + seq![i]);
                } else {
                    assert(blocks_with_extension(ds@.take(i as int + 1), e)
                        =~= blocks_with_extension(ds@.take(i as int), e));
                    assert(found_indices(index@, e) =~= blocks_with_extension(
                        ds@.take(i as int),
                        e,
                    ));
                }
            }
        }
        i = i + 1;
    }
    proof {
        assert(ds@.take(ds@.len() as int) =~= ds@);
    }
    index
}

/// Keeps the vendor patterns that compile, in order; malformed patterns are
/// dropped so that vendor matching degrades gracefully instead of failing.
fn compile_vendor_patterns(vendor: &Vec<String>) -> (r: Vec<String>)
    ensures
        r.deep_view() == valid_patterns(vendor.deep_view()),
{
    let mut kept: Vec<String> = Vec::new();
    proof {
        assert(kept.deep_view() =~= valid_patterns(vendor.deep_view().take(0)));
    }
    let mut i: usize = 0;
    while i < vendor.len()
        invariant
            i <= vendor.len(),
            kept.deep_view() == valid_patterns(vendor.deep_view().take(i as int)),
        decreases vendor.len() - i,
    {
        let ghost prev = kept.deep_view();
        let p = &vendor[i];
        if crate::patterns::regex_compiles(p.as_str()) {
            kept.push(p.clone());
            proof {
                assert(kept.deep_view() =~= prev.push(p@));
            }
        }
        proof {
            let t1 = vendor.deep_view().take(i as int + 1);
            assert(t1.drop_last() =~= vendor.deep_view().take(i as int));
            assert(t1.last() == p@);
            if regex_valid(p@) {
                assert(kept.deep_view() =~= valid_patterns(t1));
            } else {
                assert(kept.deep_view() =~= valid_patterns(t1));
            }
        }
        i = i + 1;
    }
    proof {
        assert(vendor.deep_view().take(vendor@.len() as int) =~= vendor.deep_view());
    }
    kept
}

/// The four derived lookup structures, together with the dataset they were
/// built from. Built once and then only read.
pub struct LinguistIndex {
    /// The language table, in dataset order.
    pub languages: Vec<(String, Language)>,
    /// Extension to the names of the languages registering it.
    pub extension_index: Vec<(String, Vec<String>)>,
    /// Exact filename to the names of the languages registering it.
    pub filename_index: Vec<(String, Vec<String>)>,
    /// The disambiguation blocks, in dataset order.
    pub disambiguations: Vec<Disambiguation>,
    /// Extension to the positions of the blocks declaring it.
    pub disambiguation_index: Vec<(String, Vec<usize>)>,
    /// Named regex pattern lists shared between heuristic rules.
    pub named_patterns: Vec<(String, Vec<String>)>,
    /// The vendor patterns that compile, in dataset order.
    pub vendor_patterns: Vec<String>,
}

impl LinguistIndex {
    /// Every index bucket holds exactly what the dataset registers for its
    /// key.
    pub open spec fn well_indexed(self) -> bool {
        &&& forall|e: Seq<char>| #![auto]
            found_names(self.extension_index@, e) == names_with_key(self.languages@, e, true)
        &&& forall|f: Seq<char>| #![auto]
            found_names(self.filename_index@, f) == names_with_key(self.languages@, f, false)
        &&& forall|e: Seq<char>| #![auto]
            found_indices(self.disambiguation_index@, e) == blocks_with_extension(
                self.disambiguations@,
                e,
            )
    }
}

/// Builds the four indices in one pass each over the language table, the
/// heuristics table and the vendor list. The dataset is taken as supplied
/// and never mutated afterwards.
pub fn build_index(
    languages: Vec<(String, Language)>,
    heuristics: Heuristics,
    vendor_patterns: Vec<String>,
) -> (idx: LinguistIndex)
    requires
        languages_wf(languages@),
        heuristics_wf(heuristics),
    ensures
        idx.well_indexed(),
        idx.languages == languages,
        idx.disambiguations == heuristics.disambiguations,
        idx.named_patterns == heuristics.named_patterns,
        idx.vendor_patterns.deep_view() == valid_patterns(vendor_patterns.deep_view()),
{
    let extension_index = index_languages(&languages, true);
    let filename_index = index_languages(&languages, false);
    let disambiguation_index = index_disambiguations(&heuristics.disambiguations);
    let vendor = compile_vendor_patterns(&vendor_patterns);
    let Heuristics { disambiguations, named_patterns } = heuristics;
    LinguistIndex {
        languages,
        extension_index,
        filename_index,
        disambiguations,
        disambiguation_index,
        named_patterns,
        vendor_patterns: vendor,
    }
}

} // verus!
