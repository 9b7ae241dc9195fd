use vstd::prelude::*;
use vstd::utf8::*;
use crate::imports::{with_import, SimpleImportManager};
use crate::keys::key_of;
use crate::models::{
    FileType, LanguageFile, ReplacementStrategy, TranslationKey, TranslationKeyWithPosition,
};
use crate::replacer::{apply_all, back_to_front, in_order, RegexReplacer};
use crate::scanner::{describes, extracted, text_of, Candidate, SwcStringExtractor};
use crate::text::{append, chars_of, contains_text, has_infix, matches_at, occurs_at, owned, string_of, utf8};

verus! {

/// The source text of the last key in `keys` whose id is `id`.
pub open spec fn last_source(keys: Seq<TranslationKey>, id: Seq<char>) -> Option<Seq<char>>
    decreases keys.len(),
{
    if keys.len() == 0 {
        None
    } else if keys.last().id@ == id {
        Some(keys.last().source@)
    } else {
        last_source(keys.drop_last(), id)
    }
}

/// Gathers the keys found in a code base into one dictionary.
pub struct ExtractStringsUseCase;

impl ExtractStringsUseCase {
    /// Adds each key's source text under its id; a later key with the same id
    /// replaces an earlier one.
    pub fn collect_into(file: &mut LanguageFile, keys: &Vec<TranslationKey>)
        ensures
            forall|id: Seq<char>|
                #[trigger] final(file).value_of(id) == match last_source(keys@, id) {
                    Some(v) => Some(v),
                    None => old(file).value_of(id),
                },
    {
        let mut i: usize = 0;
        while i < keys.len()
            invariant
                i <= keys@.len(),
                forall|id: Seq<char>|
                    #[trigger] file.value_of(id) == match last_source(keys@.take(i as int), id) {
                        Some(v) => Some(v),
                        None => old(file).value_of(id),
                    },
            decreases keys@.len() - i,
        {
            assert(keys@.take(i + 1).drop_last() =~= keys@.take(i as int));
            file.insert(owned(keys[i].id.as_str()), owned(keys[i].source.as_str()));
            i = i + 1;
        }
        assert(keys@.take(keys@.len() as int) =~= keys@);
    }
}

/// The candidates whose key the dictionary translates.
pub open spec fn translated_candidates(s: Seq<char>, dict: LanguageFile) -> Seq<Candidate> {
    extracted(s).filter(|c: Candidate| dict.value_of(key_of(text_of(s, c))) is Some)
}

/// Rewrites source files so that translated literals become calls.
pub struct ReplaceStringsUseCase;

impl ReplaceStringsUseCase {
    /// The records of a file's text whose key the dictionary translates.
    pub fn translated_records(content: &str, file_path: &str, translations: &LanguageFile) -> (r: Vec<
        TranslationKeyWithPosition,
    >)
        ensures
            r@.len() == translated_candidates(content@, *translations).len(),
            forall|k: int|
                0 <= k < r@.len() ==> describes(
                    #[trigger] r@[k],
                    translated_candidates(content@, *translations)[k],
                    content@,
                    file_path@,
                ),
    {
        let extractor = SwcStringExtractor;
        let found = extractor.extract_with_positions(content, file_path);
        let ghost s = content@;
        let ghost pred = |c: Candidate| translations.value_of(key_of(text_of(s, c))) is Some;
        let mut r: Vec<TranslationKeyWithPosition> = Vec::new();
        let mut i: usize = 0;
        while i < found.len()
            invariant
                i <= found@.len(),
                s == content@,
                pred == (|c: Candidate| translations.value_of(key_of(text_of(s, c))) is Some),
                found@.len() == extracted(s).len(),
                forall|m: int| 0 <= m < found@.len() ==> describes(#[trigger] found@[m], extracted(s)[m], s, file_path@),
                r@.len() == extracted(s).take(i as int).filter(pred).len(),
                forall|m: int|
                    0 <= m < r@.len() ==> describes(#[trigger] r@[m], extracted(s).take(i as int).filter(pred)[m], s, file_path@),
            decreases found@.len() - i,
        {
            let ghost c = extracted(s)[i as int];
            assert(describes(found@[i as int], c, s, file_path@));
            assert(extracted(s).take(i + 1) =~= extracted(s).take(i as int).push(c));
            proof {
                extracted(s).take(i as int).lemma_filter_push(c, pred);
            }
            let known = translations.get(found[i].id.as_str()).is_some();
            if known {
                let ghost before = r@;
                r.push(found[i].copied());
                assert forall|m: int| 0 <= m < r@.len() implies describes(#[trigger] r@[m], extracted(s).take(i + 1).filter(pred)[m], s, file_path@) by {
                    if m < before.len() {
                        assert(r@[m] == before[m]);
                    }
                }
            }
            i = i + 1;
        }
        assert(extracted(s).take(extracted(s).len() as int) =~= extracted(s));
        r
    }

    /// A file's text with every literal that the dictionary translates
    /// replaced by its call and the import present, with the records that
    /// were applied; `None` where the dictionary translates none of them.
    pub fn rewrite(
        content: &str,
        file_path: &str,
        file_type: FileType,
        translations: &LanguageFile,
        strategy: &ReplacementStrategy,
    ) -> (r: Option<(String, Vec<TranslationKeyWithPosition>)>)
        ensures
            r is None <==> translated_candidates(content@, *translations).len() == 0,
            r matches Some((text, ks)) ==> {
                &&& ks@.len() == translated_candidates(content@, *translations).len()
                &&& forall|k: int|
                    0 <= k < ks@.len() ==> describes(
                        #[trigger] ks@[k],
                        translated_candidates(content@, *translations)[k],
                        content@,
                        file_path@,
                    )
                &&& exists|replaced: Seq<char>, ord: Seq<int>|
                    back_to_front(ks@, ord) && utf8(replaced) == apply_all(
                        utf8(content@),
                        utf8(content@),
                        in_order(ks@, ord),
                        *strategy,
                    ) && text@ == with_import(replaced, *strategy)
            },
    {
        let keys = Self::translated_records(content, file_path, translations);
        if keys.len() == 0 {
            return None;
        }
        let replaced = RegexReplacer.replace(content, keys.as_slice(), strategy);
        let text = SimpleImportManager.ensure_import(replaced.as_str(), file_type, strategy);
        proof {
            let ord = choose|ord: Seq<int>|
                back_to_front(keys@, ord) && utf8(replaced@) == apply_all(
                    utf8(content@),
                    utf8(content@),
                    in_order(keys@, ord),
                    *strategy,
                );
            assert(back_to_front(keys@, ord) && utf8(replaced@) == apply_all(
                utf8(content@),
                utf8(content@),
                in_order(keys@, ord),
                *strategy,
            ) && text@ == with_import(replaced@, *strategy));
        }
        Some((text, keys))
    }
}

} // verus!
verus! {

/// The first index at which `p` occurs in `s`, looking from index `i` on.
pub open spec fn first_occurrence(s: Seq<char>, p: Seq<char>, i: int) -> Option<int>
    decreases s.len() + 1 - i,
{
    if i < 0 || i > s.len() {
        None
    } else if occurs_at(s, p, i) {
        Some(i)
    } else {
        first_occurrence(s, p, i + 1)
    }
}

/// The index of the last `c` in `s`, if any.
pub open spec fn last_index(s: Seq<char>, c: char) -> Option<int>
    decreases s.len(),
{
    if s.len() == 0 {
        None
    } else if s.last() == c {
        Some(s.len() - 1)
    } else {
        last_index(s.drop_last(), c)
    }
}

/// The marker that a rewritten file carries in its name.
pub open spec fn marker() -> Seq<char> {
    ".i18n."@
}

/// The name of the file that a rewritten file replaces: the name with its
/// first `.i18n.` turned into `.`.
pub open spec fn original_name(name: Seq<char>) -> Seq<char> {
    match first_occurrence(name, marker(), 0) {
        Some(i) => name.take(i) + "."@ + name.skip(i + marker().len()),
        None => name,
    }
}

/// The name under which a rewritten file is written: `.i18n` before the
/// extension; none for a name without an extension.
pub open spec fn i18n_name(name: Seq<char>) -> Option<Seq<char>> {
    match last_index(name, '.') {
        Some(k) => if k > 0 {
            Some(name.take(k) + marker() + name.skip(k + 1))
        } else {
            None
        },
        None => None,
    }
}

proof fn lemma_first_occurrence_bounds(s: Seq<char>, p: Seq<char>, i: int)
    requires
        0 <= i,
    ensures
        first_occurrence(s, p, i) matches Some(j) ==> i <= j && occurs_at(s, p, j),
    decreases s.len() + 1 - i,
{
    if i <= s.len() && !occurs_at(s, p, i) {
        lemma_first_occurrence_bounds(s, p, i + 1);
    }
}

proof fn lemma_last_index_bounds(s: Seq<char>, c: char)
    ensures
        last_index(s, c) matches Some(k) ==> 0 <= k < s.len() && s[k] == c,
    decreases s.len(),
{
    if s.len() > 0 && s.last() != c {
        lemma_last_index_bounds(s.drop_last(), c);
    }
}

impl ReplaceStringsUseCase {
    /// `App.tsx` becomes `App.i18n.tsx`; a name without an extension has no
    /// such name.
    pub fn create_i18n_filename(file_name: &str) -> (r: Option<String>)
        ensures
            match i18n_name(file_name@) {
                Some(n) => r matches Some(x) && x@ == n,
                None => r is None,
            },
    {
        let cs = chars_of(file_name);
        let mut k: usize = cs.len();
        assert(cs@.take(k as int) =~= cs@);
        while k > 0 && cs[k - 1] != '.'
            invariant
                k <= cs@.len(),
                last_index(cs@, '.') == last_index(cs@.take(k as int), '.'),
            decreases k,
        {
            assert(cs@.take(k as int).drop_last() =~= cs@.take(k - 1));
            k = k - 1;
        }
        proof {
            if k > 0 {
                assert(cs@.take(k as int).last() == cs@[k - 1]);
            }
        }
        proof {
            if k == 0 {
                assert(cs@.take(0) =~= Seq::<char>::empty());
            }
        }
        if k <= 1 {
            return None;
        }
        let dot = k - 1;
        let mut r = string_of(&cs, 0, dot);
        append(&mut r, ".i18n.");
        let ext = string_of(&cs, dot + 1, cs.len());
        append(&mut r, ext.as_str());
        assert(cs@.subrange(0, dot as int) =~= cs@.take(dot as int));
        assert(cs@.subrange(dot + 1, cs@.len() as int) =~= cs@.skip(dot + 1));
        Some(r)
    }
}

/// A rewritten file and the file it is to replace.
#[derive(Debug, Clone)]
pub struct MergeFile {
    pub i18n_file: String,
    pub original_file: String,
    pub file_size: u64,
}

/// The rewritten files that are ready to replace their originals.
pub struct MergeSummary {
    pub files_to_merge: Vec<MergeFile>,
    pub total_files: usize,
}

impl MergeSummary {
    pub fn new(files_to_merge: Vec<MergeFile>) -> (r: MergeSummary)
        ensures
            r.files_to_merge@ == files_to_merge@,
            r.total_files == files_to_merge@.len(),
    {
        let total_files = files_to_merge.len();
        MergeSummary { files_to_merge, total_files }
    }
}

/// How many files were merged, and why the others were not.
pub struct MergeResult {
    pub successful: usize,
    pub failed: usize,
    pub errors: Vec<(String, String)>,
}

/// Puts rewritten files in place of their originals.
pub struct MergeI18nUseCase;

impl MergeI18nUseCase {
    /// Whether a file name marks a rewritten file.
    pub fn is_i18n_file(file_name: &str) -> (r: bool)
        ensures
            r == has_infix(file_name@, marker()),
    {
        let cs = chars_of(file_name);
        contains_text(&cs, ".i18n.")
    }

    /// The name of the file that a rewritten file replaces.
    pub fn get_original_path(file_name: &str) -> (r: String)
        ensures
            r@ == original_name(file_name@),
    {
        let cs = chars_of(file_name);
        let m = chars_of(".i18n.");
        let mut i: usize = 0;
        while i < cs.len() && !matches_at(&cs, &m, i)
            invariant
                m@ == marker(),
                i <= cs@.len(),
                first_occurrence(cs@, marker(), 0) == first_occurrence(cs@, marker(), i as int),
            decreases cs@.len() - i,
        {
            i = i + 1;
        }
        if !matches_at(&cs, &m, i) {
            proof {
                if i == cs@.len() {
                    assert(first_occurrence(cs@, marker(), i + 1) is None);
                }
            }
            return owned(file_name);
        }
        proof {
            lemma_first_occurrence_bounds(cs@, marker(), i as int);
        }
        let mut r = string_of(&cs, 0, i);
        append(&mut r, ".");
        let rest = string_of(&cs, i + m.len(), cs.len());
        append(&mut r, rest.as_str());
        assert(cs@.subrange(0, i as int) =~= cs@.take(i as int));
        assert(cs@.subrange(i + m@.len(), cs@.len() as int) =~= cs@.skip(i + marker().len()));
        r
    }
}

/// Translates a dictionary into other languages.
pub struct TranslateKeysUseCase;

impl TranslateKeysUseCase {
    /// Whether a text is long enough to be sent for translation: two bytes
    /// or more.
    pub fn needs_translation(value: &str) -> (r: bool)
        ensures
            r == (utf8(value@).len() >= 2),
    {
        value.as_bytes().len() >= 2
    }

    /// The text stored for a key: the translation where one was asked for and
    /// came back, else the source text.
    pub fn translated_text(source: &str, translation: Option<String>) -> (r: String)
        ensures
            r@ == match translation {
                Some(t) => if utf8(source@).len() >= 2 {
                    t@
                } else {
                    source@
                },
                None => source@,
            },
    {
        match translation {
            Some(t) => if Self::needs_translation(source) {
                t
            } else {
                owned(source)
            },
            None => owned(source),
        }
    }

    /// The name of a language's dictionary file.
    pub fn language_file_name(lang: &str) -> (r: String)
        ensures
            r@ == lang@ + ".json"@,
    {
        let mut r = owned(lang);
        append(&mut r, ".json");
        r
    }
}

} // verus!
verus! {

/// How many literals of each kind an extraction found.
pub struct ExtractionSummary {
    pub total_strings: usize,
    pub double_quotes: usize,
    pub single_quotes: usize,
    pub template_literals: usize,
    pub jsx_text: usize,
    pub html_attributes: usize,
}

/// How a translation run went.
pub struct TranslationSummary {
    pub total: usize,
    pub successful: usize,
    pub failed: usize,
    pub languages: Vec<String>,
}

/// How many files and strings a rewrite changed.
pub struct ReplacementSummary {
    pub files_processed: usize,
    pub strings_replaced: usize,
}

} // verus!
