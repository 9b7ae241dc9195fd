use vstd::prelude::*;
use crate::text::{lower_of, lowercase, owned, text_eq, upper_of, uppercase};

verus! {

/// The value paired with the first entry for `key`, if any.
pub open spec fn table_lookup(table: Seq<(Seq<char>, Seq<char>)>, key: Seq<char>) -> Option<Seq<char>>
    decreases table.len(),
{
    if table.len() == 0 {
        None
    } else if table[0].0 == key {
        Some(table[0].1)
    } else {
        table_lookup(table.drop_first(), key)
    }
}

/// The view of a table of text pairs.
pub open spec fn pairs_view(t: Seq<(&str, &str)>) -> Seq<(Seq<char>, Seq<char>)> {
    t.map_values(|p: (&str, &str)| (p.0@, p.1@))
}

/// The value paired with `key` in `table`.
fn find_pair(table: &Vec<(&'static str, &'static str)>, key: &str) -> (r: Option<&'static str>)
    ensures
        match table_lookup(pairs_view(table@), key@) {
            Some(v) => r matches Some(x) && x@ == v,
            None => r is None,
        },
{
    let mut i: usize = 0;
    assert(pairs_view(table@).skip(0) =~= pairs_view(table@));
    while i < table.len()
        invariant
            i <= table@.len(),
            table_lookup(pairs_view(table@), key@) == table_lookup(pairs_view(table@).skip(i as int), key@),
        decreases table@.len() - i,
    {
        let ghost rest = pairs_view(table@).skip(i as int);
        assert(rest.drop_first() =~= pairs_view(table@).skip(i + 1));
        assert(rest[0] == (table@[i as int].0@, table@[i as int].1@));
        if text_eq(table[i].0, key) {
            return Some(table[i].1);
        }
        i = i + 1;
    }
    None
}

/// DeepL's target language code for each supported lowercase code.
pub open spec fn deepl_codes() -> Seq<(Seq<char>, Seq<char>)> {
    seq![
        ("en"@, "EN-US"@), ("fr"@, "FR"@), ("es"@, "ES"@), ("de"@, "DE"@), ("it"@, "IT"@),
        ("pt"@, "PT-PT"@), ("nl"@, "NL"@), ("pl"@, "PL"@), ("ru"@, "RU"@), ("ja"@, "JA"@),
        ("zh"@, "ZH"@),
    ]
}

/// The English name of each supported lowercase language code.
pub open spec fn language_names() -> Seq<(Seq<char>, Seq<char>)> {
    seq![
        ("en"@, "English"@), ("fr"@, "French"@), ("es"@, "Spanish"@), ("de"@, "German"@),
        ("it"@, "Italian"@), ("pt"@, "Portuguese"@), ("nl"@, "Dutch"@), ("pl"@, "Polish"@),
        ("ru"@, "Russian"@), ("ja"@, "Japanese"@), ("zh"@, "Chinese"@), ("ko"@, "Korean"@),
    ]
}

/// The table's entry for the lowercase form of `code`, or that form in
/// uppercase.
pub open spec fn mapped_or_upper(table: Seq<(Seq<char>, Seq<char>)>, code: Seq<char>) -> Seq<char> {
    match table_lookup(table, lower_of(code)) {
        Some(v) => v,
        None => upper_of(lower_of(code)),
    }
}

/// The table's value for the lowercase form of `code`, or that form in uppercase.
fn map_code(table: &Vec<(&'static str, &'static str)>, code: &str) -> (r: String)
    ensures
        r@ == mapped_or_upper(pairs_view(table@), code@),
{
    let lowered = lowercase(code);
    match find_pair(table, lowered.as_str()) {
        Some(v) => owned(v),
        None => uppercase(lowered.as_str()),
    }
}

/// The target language code that DeepL expects for a language code.
pub fn normalize_target_lang(lang: &str) -> (r: String)
    ensures
        r@ == mapped_or_upper(deepl_codes(), lang@),
{
    let table = vec![
        ("en", "EN-US"), ("fr", "FR"), ("es", "ES"), ("de", "DE"), ("it", "IT"), ("pt", "PT-PT"),
        ("nl", "NL"), ("pl", "PL"), ("ru", "RU"), ("ja", "JA"), ("zh", "ZH"),
    ];
    assert(pairs_view(table@) =~= deepl_codes());
    map_code(&table, lang)
}

/// The English name of a language code, as a language model is asked for it.
pub fn lang_code_to_name(code: &str) -> (r: String)
    ensures
        r@ == mapped_or_upper(language_names(), code@),
{
    let table = vec![
        ("en", "English"), ("fr", "French"), ("es", "Spanish"), ("de", "German"), ("it", "Italian"),
        ("pt", "Portuguese"), ("nl", "Dutch"), ("pl", "Polish"), ("ru", "Russian"), ("ja", "Japanese"),
        ("zh", "Chinese"), ("ko", "Korean"),
    ];
    assert(pairs_view(table@) =~= language_names());
    map_code(&table, code)
}

} // verus!
