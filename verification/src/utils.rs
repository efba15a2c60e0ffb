//! Pure string utilities: filename extraction, candidate-extension
//! extraction, and pattern-list matching.

use vstd::prelude::*;
use vstd::string::StrSliceExecFns;
use vstd::string::StringExecFns;

use crate::error::LinguistError;
use crate::patterns::{match_list, regex_search, PatternCheck};

verus! {

/// The filename component of a path: the characters after the last `/`,
/// empty when the path is empty or ends in `/`.
pub open spec fn filename_of(path: Seq<char>) -> Seq<char>
    decreases path.len(),
{
    if path.len() == 0 {
        path
    } else if path.last() == '/' {
        Seq::empty()
    } else {
        filename_of(path.drop_last()).push(path.last())
    }
}

/// When no `/` occurs at or after position `k`, and `k` is either the start
/// or just after a `/`, the filename component is exactly the suffix from `k`.
proof fn lemma_filename_suffix(path: Seq<char>, k: int)
    requires
        0 <= k <= path.len(),
        forall|j: int| k <= j < path.len() ==> path[j] != '/',
        k > 0 ==> path[k - 1] == '/',
    ensures
        filename_of(path) == path.skip(k),
    decreases path.len(),
{
    if path.len() == k {
        assert(path.skip(k) =~= Seq::<char>::empty());
        if k > 0 {
            assert(path.last() == '/');
        } else {
            assert(path =~= Seq::<char>::empty());
        }
    } else {
        assert(path.last() != '/');
        lemma_filename_suffix(path.drop_last(), k);
        assert(filename_of(path) == path.drop_last().skip(k).push(path.last()));
        assert(path.drop_last().skip(k).push(path.last()) =~= path.skip(k));
    }
}

/// Helper function to extract the filename component from a path.
///
/// Returns the part of the path after its last `/`; fails with
/// [`LinguistError::NoFilename`] when that part is empty (the path is empty,
/// is a bare `/`, or ends in `/`).
pub fn get_filename_from_path(path: &str) -> (r: Result<String, LinguistError>)
    ensures
        filename_of(path@).len() > 0 ==> (r matches Ok(f) && f@ == filename_of(path@)),
        filename_of(path@).len() == 0 ==> r == Err::<String, LinguistError>(
            LinguistError::NoFilename,
        ),
{
    let n = path.unicode_len();
    let mut start: usize = n;
    while start > 0
        invariant
            start <= n,
            n == path@.len(),
            forall|j: int| start <= j < n ==> path@[j] != '/',
        ensures
            start <= n,
            n == path@.len(),
            forall|j: int| start <= j < n ==> path@[j] != '/',
            start > 0 ==> path@[start - 1] == '/',
        decreases start,
    {
        if path.get_char(start - 1) == '/' {
            break ;
        }
        start = start - 1;
    }
    proof {
        lemma_filename_suffix(path@, start as int);
    }
    if start == n {
        Err(LinguistError::NoFilename)
    } else {
        let f = String::from_str(path.substring_char(start, n));
        proof {
            assert(path@.subrange(start as int, n as int) =~= path@.skip(start as int));
        }
        Ok(f)
    }
}

/// The extensions of `f` whose leading dot lies at or after position `lo`,
/// ordered shortest (rightmost dot) first.
pub open spec fn ext_list(f: Seq<char>, lo: int) -> Seq<Seq<char>>
    decreases f.len() - lo,
{
    if lo < 0 || lo >= f.len() {
        Seq::empty()
    } else {
        ext_list(f, lo + 1) + (if f[lo] == '.' {
            seq![f.skip(lo)]
        } else {
            Seq::empty()
        })
    }
}

/// All candidate extensions of a filename: for dot positions
/// `p1 < p2 < … < pn` the suffixes `[f[pn..], …, f[p1..]]`, i.e. most
/// specific (shortest) first. A filename without a dot has none.
pub open spec fn extensions_of(f: Seq<char>) -> Seq<Seq<char>> {
    ext_list(f, 0)
}

/// Extract all possible extensions from a filename.
///
/// Returns extensions from most specific (shortest suffix) to least
/// specific, each beginning at a `.` and running to the end of the filename.
pub fn extract_extensions(filename: &str) -> (r: Vec<String>)
    ensures
        r.deep_view() == extensions_of(filename@),
{
    let n = filename.unicode_len();
    let mut exts: Vec<String> = Vec::new();
    proof {
        assert(exts.deep_view() =~= ext_list(filename@, n as int));
    }
    let mut i: usize = n;
    while i > 0
        invariant
            i <= n,
            n == filename@.len(),
            exts.deep_view() == ext_list(filename@, i as int),
        decreases i,
    {
        i = i - 1;
        if filename.get_char(i) == '.' {
            let ghost prev = exts.deep_view();
            let s = String::from_str(filename.substring_char(i, n));
            exts.push(s);
            proof {
                assert(s@ =~= filename@.skip(i as int));
                assert(exts.deep_view() =~= prev.push(filename@.skip(i as int)));
                assert(exts.deep_view() =~= ext_list(filename@, i as int));
            }
        } else {
            proof {
                assert(ext_list(filename@, i as int) =~= ext_list(filename@, i as int + 1));
            }
        }
    }
    exts
}

/// Helper function to check whether any pattern in a list matches the
/// content.
///
/// Patterns are tried in order; the first occurrence found answers `true`,
/// and an invalid pattern reached before any occurrence surfaces
/// [`LinguistError::InvalidRegex`]. If every pattern compiles and none finds
/// an occurrence the answer is `false`.
pub fn matches_pattern(patterns: &Vec<String>, content: &str) -> (r: Result<bool, LinguistError>)
    ensures
        ({
            let m = match_list(patterns.deep_view(), content@);
            match m {
                PatternCheck::Found => r == Ok::<bool, LinguistError>(true),
                PatternCheck::NotFound => r == Ok::<bool, LinguistError>(false),
                PatternCheck::Bad(p) => r matches Err(e) && e matches LinguistError::InvalidRegex {
                    pattern,
                    error,
                } && pattern@ == p,
            }
        }),
{
    let ghost all = patterns.deep_view();
    proof {
        assert(all.skip(0) =~= all);
    }
    let mut i: usize = 0;
    while i < patterns.len()
        invariant
            i <= patterns.len(),
            all == patterns.deep_view(),
            match_list(all, content@) == match_list(all.skip(i as int), content@),
        decreases patterns.len() - i,
    {
        let p = &patterns[i];
        proof {
            assert(all.skip(i as int)[0] == all[i as int]);
            assert(all[i as int] == p@);
        }
        match regex_search(p.as_str(), content) {
            Ok(true) => {
                return Ok(true);
            },
            Ok(false) => {
                proof {
                    assert(all.skip(i as int).drop_first() =~= all.skip(i as int + 1));
                }
            },
            Err(msg) => {
                return Err(LinguistError::InvalidRegex { pattern: p.clone(), error: msg });
            },
        }
        i = i + 1;
    }
    proof {
        assert(all.skip(patterns.len() as int) =~= Seq::<Seq<char>>::empty());
    }
    Ok(false)
}

} // verus!
