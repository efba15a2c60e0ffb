//! The dataset types: language definitions, heuristic rules, disambiguation
//! blocks, and the heuristics table.
//!
//! The dataset is produced by an external collaborator (e.g. parsed from a
//! structured configuration at startup) and handed to the engine fully built;
//! the engine never mutates it.

use vstd::prelude::*;

verus! {

/// The kind of a language as defined in the language table.
#[derive(Debug, Clone, Copy, PartialEq, Eq, Structural)]
pub enum LanguageType {
    Data,
    Programming,
    Markup,
    Prose,
}

/// A single language definition from the language table.
#[derive(Debug)]
pub struct Language {
    /// Kind of language: data, programming, markup, or prose.
    pub language_type: LanguageType,
    /// Ace editor mode used for syntax highlighting.
    pub ace_mode: String,
    /// TextMate scope for the language.
    pub tm_scope: String,
    /// Unique numeric identifier of the language.
    pub language_id: i64,
    /// List of associated file extensions, each beginning with `.`.
    pub extensions: Option<Vec<String>>,
    /// List of associated exact filenames.
    pub filenames: Option<Vec<String>>,
    /// Additional aliases for the language.
    pub aliases: Option<Vec<String>>,
    /// List of programs that execute the language.
    pub interpreters: Option<Vec<String>>,
    /// CSS color code representing the language.
    pub color: Option<String>,
    /// CodeMirror mode for editing.
    pub codemirror_mode: Option<String>,
    /// MIME media-type used by CodeMirror.
    pub codemirror_mime_type: Option<String>,
    /// Name of the parent language (for grouping statistics).
    pub group: Option<String>,
    /// Filesystem-safe name for the language.
    pub fs_name: Option<String>,
    /// Enable soft line-wrapping.
    pub wrap: Option<bool>,
}

/// The mathematical value of a [`Language`]: every string as a sequence of
/// characters, every list as a sequence.
#[verifier::ext_equal]
pub ghost struct LanguageModel {
    pub language_type: LanguageType,
    pub ace_mode: Seq<char>,
    pub tm_scope: Seq<char>,
    pub language_id: int,
    pub extensions: Option<Seq<Seq<char>>>,
    pub filenames: Option<Seq<Seq<char>>>,
    pub aliases: Option<Seq<Seq<char>>>,
    pub interpreters: Option<Seq<Seq<char>>>,
    pub color: Option<Seq<char>>,
    pub codemirror_mode: Option<Seq<char>>,
    pub codemirror_mime_type: Option<Seq<char>>,
    pub group: Option<Seq<char>>,
    pub fs_name: Option<Seq<char>>,
    pub wrap: Option<bool>,
}

impl View for Language {
    type V = LanguageModel;

    open spec fn view(&self) -> LanguageModel {
        LanguageModel {
            language_type: self.language_type,
            ace_mode: self.ace_mode@,
            tm_scope: self.tm_scope@,
            language_id: self.language_id as int,
            extensions: self.extensions.deep_view(),
            filenames: self.filenames.deep_view(),
            aliases: self.aliases.deep_view(),
            interpreters: self.interpreters.deep_view(),
            color: self.color.deep_view(),
            codemirror_mode: self.codemirror_mode.deep_view(),
            codemirror_mime_type: self.codemirror_mime_type.deep_view(),
            group: self.group.deep_view(),
            fs_name: self.fs_name.deep_view(),
            wrap: self.wrap,
        }
    }
}

impl DeepView for Language {
    type V = LanguageModel;

    open spec fn deep_view(&self) -> LanguageModel {
        self.view()
    }
}

/// A clone of an optional string list keeps its mathematical value.
proof fn lemma_cloned_opt_strings(a: Option<Vec<String>>, b: Option<Vec<String>>)
    requires
        cloned(a, b),
    ensures
        b.deep_view() == a.deep_view(),
{
    if a is Some && b is Some {
        let av = a->0;
        let bv = b->0;
        if av != bv {
            assert(bv.len() == av.len());
            assert(forall|i: int| 0 <= i < av.len() ==> #[trigger] bv[i] == av[i]);
            assert(bv.deep_view() =~= av.deep_view());
        }
    }
}

/// A clone of an optional string keeps its mathematical value.
proof fn lemma_cloned_opt_string(a: Option<String>, b: Option<String>)
    requires
        cloned(a, b),
    ensures
        b.deep_view() == a.deep_view(),
{
}

impl Clone for Language {
    /// The copy has the same mathematical value as the original.
    fn clone(&self) -> (res: Self)
        ensures
            res@ == self@,
    {
        let res = Language {
            language_type: self.language_type,
            ace_mode: self.ace_mode.clone(),
            tm_scope: self.tm_scope.clone(),
            language_id: self.language_id,
            extensions: self.extensions.clone(),
            filenames: self.filenames.clone(),
            aliases: self.aliases.clone(),
            interpreters: self.interpreters.clone(),
            color: self.color.clone(),
            codemirror_mode: self.codemirror_mode.clone(),
            codemirror_mime_type: self.codemirror_mime_type.clone(),
            group: self.group.clone(),
            fs_name: self.fs_name.clone(),
            wrap: self.wrap,
        };
        proof {
            lemma_cloned_opt_strings(self.extensions, res.extensions);
            lemma_cloned_opt_strings(self.filenames, res.filenames);
            lemma_cloned_opt_strings(self.aliases, res.aliases);
            lemma_cloned_opt_strings(self.interpreters, res.interpreters);
            lemma_cloned_opt_string(self.color, res.color);
            lemma_cloned_opt_string(self.codemirror_mode, res.codemirror_mode);
            lemma_cloned_opt_string(self.codemirror_mime_type, res.codemirror_mime_type);
            lemma_cloned_opt_string(self.group, res.group);
            lemma_cloned_opt_string(self.fs_name, res.fs_name);
            assert(res@ =~= self@);
        }
        res
    }
}

/// A heuristic rule for disambiguating languages by file content.
///
/// When `and` is present it takes precedence: every sub-rule must match and
/// the rule's own pattern fields are not consulted.
#[derive(Debug)]
pub struct HeuristicRule {
    /// Language(s) to return if this rule matches.
    pub language: Option<Vec<String>>,
    /// Regex pattern(s) to match; at least one must find an occurrence.
    pub pattern: Option<Vec<String>>,
    /// Regex pattern(s) that must all fail to find an occurrence.
    pub negative_pattern: Option<Vec<String>>,
    /// Reference to a named pattern shared between rules.
    pub named_pattern: Option<String>,
    /// Sub-rules that must all match (AND composition).
    pub and: Option<Vec<HeuristicRule>>,
}

/// A disambiguation block: the extensions it applies to and its ordered rules.
#[derive(Debug)]
pub struct Disambiguation {
    /// File extensions this block applies to.
    pub extensions: Vec<String>,
    /// Ordered list of rules to try; the first match wins.
    pub rules: Vec<HeuristicRule>,
}

/// The heuristics table: ordered disambiguation blocks plus the shared
/// named-pattern mapping.
#[derive(Debug)]
pub struct Heuristics {
    /// List of disambiguation blocks, in dataset order.
    pub disambiguations: Vec<Disambiguation>,
    /// Named regex pattern lists that rules can reference.
    pub named_patterns: Vec<(String, Vec<String>)>,
}

} // verus!
