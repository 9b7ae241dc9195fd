use vstd::prelude::*;
use crate::config::ApiProvider;
use crate::models::ReplacementStrategy;
use crate::text::{chars_of, owned, string_of};

verus! {

/// The framework a project uses.
#[derive(Debug, Clone, Copy, PartialEq, Eq, Structural)]
pub enum Framework {
    React,
    Vue,
    Angular,
    Vanilla,
}

impl Framework {
    /// The framework at a position of the menu.
    pub fn from_index(i: usize) -> (r: Option<Framework>)
        ensures
            r == match i {
                0 => Some(Framework::React),
                1 => Some(Framework::Vue),
                2 => Some(Framework::Angular),
                3 => Some(Framework::Vanilla),
                _ => None::<Framework>,
            },
    {
        match i {
            0 => Some(Framework::React),
            1 => Some(Framework::Vue),
            2 => Some(Framework::Angular),
            3 => Some(Framework::Vanilla),
            _ => None,
        }
    }

    /// The rewrite strategy that suits the framework.
    pub fn strategy(&self) -> (r: ReplacementStrategy)
        ensures
            r == match self {
                Framework::React => ReplacementStrategy::ReactI18n,
                Framework::Vue => ReplacementStrategy::VueI18n,
                _ => ReplacementStrategy::Generic,
            },
    {
        match self {
            Framework::React => ReplacementStrategy::ReactI18n,
            Framework::Vue => ReplacementStrategy::VueI18n,
            _ => ReplacementStrategy::Generic,
        }
    }

    /// The name shown to a user.
    pub fn name(&self) -> (r: &'static str)
        ensures
            r@ == match self {
                Framework::React => "React"@,
                Framework::Vue => "Vue"@,
                Framework::Angular => "Angular"@,
                Framework::Vanilla => "Vanilla JS"@,
            },
    {
        match self {
            Framework::React => "React",
            Framework::Vue => "Vue",
            Framework::Angular => "Angular",
            Framework::Vanilla => "Vanilla JS",
        }
    }
}

/// How translations are to be made.
#[derive(Debug, Clone, Copy, PartialEq, Eq, Structural)]
pub enum TranslationApi {
    DeepL,
    OpenAI,
    Skip,
}

impl TranslationApi {
    /// The choice at a position of the menu.
    pub fn from_index(i: usize) -> (r: Option<TranslationApi>)
        ensures
            r == match i {
                0 => Some(TranslationApi::DeepL),
                1 => Some(TranslationApi::OpenAI),
                2 => Some(TranslationApi::Skip),
                _ => None::<TranslationApi>,
            },
    {
        match i {
            0 => Some(TranslationApi::DeepL),
            1 => Some(TranslationApi::OpenAI),
            2 => Some(TranslationApi::Skip),
            _ => None,
        }
    }

    /// The name shown to a user.
    pub fn name(&self) -> (r: &'static str)
        ensures
            r@ == match self {
                TranslationApi::DeepL => "DeepL"@,
                TranslationApi::OpenAI => "OpenAI"@,
                TranslationApi::Skip => "Skip"@,
            },
    {
        match self {
            TranslationApi::DeepL => "DeepL",
            TranslationApi::OpenAI => "OpenAI",
            TranslationApi::Skip => "Skip",
        }
    }

    /// The translation service chosen, if any.
    pub fn provider(&self) -> (r: Option<ApiProvider>)
        ensures
            r == match self {
                TranslationApi::DeepL => Some(ApiProvider::DeepL),
                TranslationApi::OpenAI => Some(ApiProvider::OpenAI),
                TranslationApi::Skip => None::<ApiProvider>,
            },
    {
        match self {
            TranslationApi::DeepL => Some(ApiProvider::DeepL),
            TranslationApi::OpenAI => Some(ApiProvider::OpenAI),
            TranslationApi::Skip => None,
        }
    }

    /// Whether a key has to be asked for.
    pub fn needs_key(&self) -> (r: bool)
        ensures
            r == !(*self is Skip),
    {
        !matches!(self, TranslationApi::Skip)
    }
}

/// What the setup wizard gathered.
#[derive(Debug, Clone)]
pub struct WizardConfig {
    pub framework: Framework,
    pub source_dir: String,
    pub output_dir: String,
    pub target_languages: Vec<String>,
    pub api_choice: TranslationApi,
    pub api_key: Option<String>,
}

/// The language code in a menu label such as `French (fr)`: what follows the
/// first `(` up to the next `)`, or `en` for a label without `(`.
pub open spec fn code_in_label(label: Seq<char>) -> Seq<char> {
    if label.contains('(') {
        let o = choose|o: int| 0 <= o < label.len() && label[o] == '(' && !label.take(o).contains('(');
        let rest = label.skip(o + 1);
        if rest.contains(')') {
            let c = choose|c: int| 0 <= c < rest.len() && rest[c] == ')' && !rest.take(c).contains(')');
            rest.take(c)
        } else {
            rest
        }
    } else {
        "en"@
    }
}

/// Asks for the setup of a project, step by step.
pub struct Wizard;

/// The first index at or after `from` that holds `c`, or the length.
fn first_char_from(cs: &Vec<char>, c: char, from: usize) -> (r: usize)
    requires
        from <= cs@.len(),
    ensures
        from <= r <= cs@.len(),
        r < cs@.len() ==> cs@[r as int] == c,
        forall|k: int| from <= k < r ==> cs@[k] != c,
{
    let mut k = from;
    while k < cs.len() && cs[k] != c
        invariant
            from <= k <= cs@.len(),
            forall|m: int| from <= m < k ==> cs@[m] != c,
        decreases cs@.len() - k,
    {
        k = k + 1;
    }
    k
}

impl Wizard {
    /// The language code in a menu label.
    pub fn language_code(label: &str) -> (r: String)
        ensures
            r@ == code_in_label(label@),
    {
        let cs = chars_of(label);
        let o = first_char_from(&cs, '(', 0);
        if o == cs.len() {
            proof {
                assert(!label@.contains('('));
            }
            return owned("en");
        }
        proof {
            assert(label@[o as int] == '(');
            assert(!label@.take(o as int).contains('(')) by {
                assert forall|m: int| 0 <= m < o implies #[trigger] label@.take(o as int)[m] != '(' by {
                }
            }
            let w = choose|w: int| 0 <= w < label@.len() && label@[w] == '(' && !label@.take(w).contains('(');
            if w < o {
                assert(label@.take(o as int)[w] == '(');
            }
            if w > o {
                assert(label@.take(w)[o as int] == '(');
            }
        }
        let c = first_char_from(&cs, ')', o + 1);
        let ghost rest = label@.skip(o + 1);
        proof {
            if c < cs@.len() {
                assert(rest[c - o - 1] == ')');
                assert(!rest.take(c - o - 1).contains(')')) by {
                    assert forall|m: int| 0 <= m < c - o - 1 implies #[trigger] rest.take(c - o - 1)[m] != ')' by {
                        assert(rest.take(c - o - 1)[m] == cs@[o + 1 + m]);
                    }
                }
                let w = choose|w: int| 0 <= w < rest.len() && rest[w] == ')' && !rest.take(w).contains(')');
                if w < c - o - 1 {
                    assert(rest.take(c - o - 1)[w] == ')');
                }
                if w > c - o - 1 {
                    assert(rest.take(w)[c - o - 1] == ')');
                }
                assert(cs@.subrange(o + 1, c as int) =~= rest.take(c - o - 1));
            } else {
                assert(!rest.contains(')')) by {
                    assert forall|m: int| 0 <= m < rest.len() implies #[trigger] rest[m] != ')' by {
                        assert(rest[m] == cs@[o + 1 + m]);
                    }
                }
                assert(cs@.subrange(o + 1, c as int) =~= rest);
            }
        }
        string_of(&cs, o + 1, c)
    }
}

} // verus!
