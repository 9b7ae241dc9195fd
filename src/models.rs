use vstd::prelude::*;
use crate::text::{append, lower_of, lowercase, owned, text_eq};

verus! {

/// A translatable string found in a source file.
#[derive(Debug, Clone, PartialEq, Eq, Hash)]
pub struct TranslationKey {
    pub id: String,
    pub source: String,
    pub file_path: String,
    pub line: usize,
}

/// A translatable string together with the byte span of its occurrence.
#[derive(Debug, Clone)]
pub struct TranslationKeyWithPosition {
    pub id: String,
    pub source: String,
    pub file_path: String,
    pub line: usize,
    pub start_byte: usize,
    pub end_byte: usize,
    pub quote_type: QuoteType,
}

impl TranslationKeyWithPosition {
    /// A copy of the record.
    pub fn copied(&self) -> (r: TranslationKeyWithPosition)
        ensures
            r.id@ == self.id@,
            r.source@ == self.source@,
            r.file_path@ == self.file_path@,
            r.line == self.line,
            r.start_byte == self.start_byte,
            r.end_byte == self.end_byte,
            r.quote_type == self.quote_type,
    {
        TranslationKeyWithPosition {
            id: owned(self.id.as_str()),
            source: owned(self.source.as_str()),
            file_path: owned(self.file_path.as_str()),
            line: self.line,
            start_byte: self.start_byte,
            end_byte: self.end_byte,
            quote_type: self.quote_type,
        }
    }

    /// The record without its position.
    pub fn to_key(&self) -> (r: TranslationKey)
        ensures
            r.id@ == self.id@,
            r.source@ == self.source@,
            r.file_path@ == self.file_path@,
            r.line == self.line,
    {
        TranslationKey {
            id: owned(self.id.as_str()),
            source: owned(self.source.as_str()),
            file_path: owned(self.file_path.as_str()),
            line: self.line,
        }
    }
}

/// Quoting style under which a literal was found.
#[derive(Debug, Clone, Copy, PartialEq, Eq, Structural)]
pub enum QuoteType {
    Double,
    Single,
    Template,
    JsxText,
}

/// Supported file types for extraction.
#[derive(Debug, Clone, Copy, PartialEq, Eq, Structural)]
pub enum FileType {
    JavaScript,
    TypeScript,
    JSX,
    TSX,
    Vue,
    HTML,
    Other,
}

/// The file type that a file name extension denotes.
pub open spec fn file_type_of(ext: Seq<char>) -> FileType {
    if ext == "js"@ {
        FileType::JavaScript
    } else if ext == "ts"@ {
        FileType::TypeScript
    } else if ext == "jsx"@ {
        FileType::JSX
    } else if ext == "tsx"@ {
        FileType::TSX
    } else if ext == "vue"@ {
        FileType::Vue
    } else if ext == "html"@ || ext == "htm"@ {
        FileType::HTML
    } else {
        FileType::Other
    }
}

impl FileType {
    pub fn from_extension(ext: &str) -> (r: FileType)
        ensures
            r == file_type_of(ext@),
    {
        if text_eq(ext, "js") {
            FileType::JavaScript
        } else if text_eq(ext, "ts") {
            FileType::TypeScript
        } else if text_eq(ext, "jsx") {
            FileType::JSX
        } else if text_eq(ext, "tsx") {
            FileType::TSX
        } else if text_eq(ext, "vue") {
            FileType::Vue
        } else if text_eq(ext, "html") || text_eq(ext, "htm") {
            FileType::HTML
        } else {
            FileType::Other
        }
    }

    pub fn is_supported(&self) -> (r: bool)
        ensures
            r == !(*self is Other),
    {
        !matches!(self, FileType::Other)
    }
}

/// Where to read sources from and write dictionaries to.
#[derive(Debug, Clone)]
pub struct ExtractionConfig {
    pub source_dir: String,
    pub output_dir: String,
    pub base_language: String,
}

/// The value that the last entry for `key` holds, if any.
pub open spec fn lookup(entries: Seq<(String, String)>, key: Seq<char>) -> Option<Seq<char>>
    decreases entries.len(),
{
    if entries.len() == 0 {
        None
    } else if entries.last().0@ == key {
        Some(entries.last().1@)
    } else {
        lookup(entries.drop_last(), key)
    }
}

/// A dictionary from translation keys to texts of one language.
#[derive(Debug, Clone)]
pub struct LanguageFile {
    pub translations: Vec<(String, String)>,
}

impl LanguageFile {
    /// The text stored under a key.
    pub open spec fn value_of(&self, key: Seq<char>) -> Option<Seq<char>> {
        lookup(self.translations@, key)
    }

    pub fn new() -> (r: LanguageFile)
        ensures
            forall|k: Seq<char>| r.value_of(k) is None,
            r.translations@.len() == 0,
    {
        LanguageFile { translations: Vec::new() }
    }

    /// Stores `value` under `key`, replacing what was stored there.
    pub fn insert(&mut self, key: String, value: String)
        ensures
            forall|k: Seq<char>|
                #[trigger] final(self).value_of(k) == if k == key@ {
                    Some(value@)
                } else {
                    old(self).value_of(k)
                },
            forall|i: int|
                0 <= i < final(self).translations@.len() - 1
                    ==> #[trigger] final(self).translations@[i].0@ != key@,
    {
        let old_entries = &self.translations;
        let mut kept: Vec<(String, String)> = Vec::new();
        let mut i: usize = 0;
        while i < old_entries.len()
            invariant
                i <= old_entries@.len(),
                forall|k: Seq<char>|
                    #[trigger] lookup(kept@, k) == if k == key@ {
                        None
                    } else {
                        lookup(old_entries@.take(i as int), k)
                    },
                forall|j: int| 0 <= j < kept@.len() ==> #[trigger] kept@[j].0@ != key@,
            decreases old_entries@.len() - i,
        {
            let ghost before = kept@;
            let same = text_eq(old_entries[i].0.as_str(), key.as_str());
            assert(old_entries@.take(i + 1).drop_last() =~= old_entries@.take(i as int));
            if !same {
                let e = (owned(old_entries[i].0.as_str()), owned(old_entries[i].1.as_str()));
                let ghost prev = kept@;
                kept.push(e);
                assert(kept@.drop_last() =~= prev);
            }
            assert forall|k: Seq<char>|
                #[trigger] lookup(kept@, k) == if k == key@ {
                    None
                } else {
                    lookup(old_entries@.take(i + 1), k)
                } by {
                assert(old_entries@.take(i + 1).last() == old_entries@[i as int]);
                assert(lookup(before, k) == if k == key@ {
                    None
                } else {
                    lookup(old_entries@.take(i as int), k)
                });
                if !same {
                    assert(kept@.drop_last() =~= before);
                }
            }
            i = i + 1;
        }
        assert(old_entries@.take(old_entries@.len() as int) =~= old_entries@);
        let ghost prev = kept@;
        kept.push((key, value));
        assert(kept@.drop_last() =~= prev);
        assert forall|k: Seq<char>|
            #[trigger] lookup(kept@, k) == if k == key@ {
                Some(value@)
            } else {
                lookup(old(self).translations@, k)
            } by {
            assert(lookup(prev, k) == lookup(kept@.drop_last(), k));
        }
        self.translations = kept;
    }

    /// The text stored under a key.
    pub fn get(&self, key: &str) -> (r: Option<&String>)
        ensures
            match r {
                Some(v) => self.value_of(key@) == Some(v@),
                None => self.value_of(key@) is None,
            },
    {
        let mut i: usize = self.translations.len();
        assert(self.translations@.take(i as int) =~= self.translations@);
        while i > 0
            invariant
                i <= self.translations@.len(),
                lookup(self.translations@, key@) == lookup(self.translations@.take(i as int), key@),
            decreases i,
        {
            let ghost pre = self.translations@.take(i as int);
            assert(pre.drop_last() =~= self.translations@.take(i - 1));
            assert(pre.last() == self.translations@[i - 1]);
            if text_eq(self.translations[i - 1].0.as_str(), key) {
                return Some(&self.translations[i - 1].1);
            }
            i = i - 1;
        }
        None
    }
}

/// How generated code refers to a translation.
#[derive(Debug, Clone, Copy, PartialEq, Eq, Structural)]
pub enum ReplacementStrategy {
    ReactI18n,
    VueI18n,
    Generic,
}

/// A name that is not among the accepted ones.
#[derive(Debug, Clone, PartialEq, Eq)]
pub enum ParseError {
    UnknownStrategy(String),
}

impl ParseError {
    /// The message shown to a user.
    pub fn message(&self) -> (r: String)
        ensures
            r@ == match self {
                ParseError::UnknownStrategy(s) => "Unknown strategy: "@ + s@
                    + ". Supported: react-i18n, vue-i18n, generic"@,
            },
    {
        match self {
            ParseError::UnknownStrategy(s) => {
                let mut r = owned("Unknown strategy: ");
                append(&mut r, s.as_str());
                append(&mut r, ". Supported: react-i18n, vue-i18n, generic");
                r
            },
        }
    }
}

/// The strategy that a name selects, compared without regard to case.
pub open spec fn strategy_named(lowered: Seq<char>) -> Option<ReplacementStrategy> {
    if lowered == "react-i18n"@ {
        Some(ReplacementStrategy::ReactI18n)
    } else if lowered == "vue-i18n"@ {
        Some(ReplacementStrategy::VueI18n)
    } else if lowered == "generic"@ {
        Some(ReplacementStrategy::Generic)
    } else {
        None
    }
}

/// The import statement that a strategy needs.
pub open spec fn import_statement_of(s: ReplacementStrategy) -> Seq<char> {
    match s {
        ReplacementStrategy::ReactI18n => "import { useTranslation } from 'react-i18next';"@,
        ReplacementStrategy::VueI18n => "import { useI18n } from 'vue-i18n';"@,
        ReplacementStrategy::Generic => "import { t } from './i18n';"@,
    }
}

/// The call expression that stands for a key.
pub open spec fn call_of(s: ReplacementStrategy, key: Seq<char>, in_jsx: bool) -> Seq<char> {
    match s {
        ReplacementStrategy::ReactI18n => if in_jsx {
            "{t(\""@ + key + "\")}"@
        } else {
            "t(\""@ + key + "\")"@
        },
        ReplacementStrategy::VueI18n => "{{ $t('"@ + key + "') }}"@,
        ReplacementStrategy::Generic => "t(\""@ + key + "\")"@,
    }
}

impl ReplacementStrategy {
    pub fn from_str(s: &str) -> (r: Result<ReplacementStrategy, ParseError>)
        ensures
            match strategy_named(lower_of(s@)) {
                Some(k) => r == Ok::<ReplacementStrategy, ParseError>(k),
                None => r matches Err(ParseError::UnknownStrategy(n)) && n@ == s@,
            },
    {
        let l = lowercase(s);
        if text_eq(l.as_str(), "react-i18n") {
            Ok(ReplacementStrategy::ReactI18n)
        } else if text_eq(l.as_str(), "vue-i18n") {
            Ok(ReplacementStrategy::VueI18n)
        } else if text_eq(l.as_str(), "generic") {
            Ok(ReplacementStrategy::Generic)
        } else {
            Err(ParseError::UnknownStrategy(owned(s)))
        }
    }

    pub fn import_statement(&self) -> (r: &'static str)
        ensures
            r@ == import_statement_of(*self),
    {
        match self {
            ReplacementStrategy::ReactI18n => "import { useTranslation } from 'react-i18next';",
            ReplacementStrategy::VueI18n => "import { useI18n } from 'vue-i18n';",
            ReplacementStrategy::Generic => "import { t } from './i18n';",
        }
    }

    pub fn translate_call(&self, key: &str, in_jsx: bool) -> (r: String)
        ensures
            r@ == call_of(*self, key@, in_jsx),
    {
        let (open, close) = match self {
            ReplacementStrategy::ReactI18n => if in_jsx {
                ("{t(\"", "\")}")
            } else {
                ("t(\"", "\")")
            },
            ReplacementStrategy::VueI18n => ("{{ $t('", "') }}"),
            ReplacementStrategy::Generic => ("t(\"", "\")"),
        };
        let mut r = owned(open);
        append(&mut r, key);
        append(&mut r, close);
        r
    }
}

} // verus!
