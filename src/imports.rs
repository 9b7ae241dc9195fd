use vstd::prelude::*;
use vstd::utf8::*;
use crate::models::{import_statement_of, FileType, ReplacementStrategy};
use crate::text::{append, chars_of, contains_text, has_infix, occurs_at, owned, utf8};

verus! {

/// Finds the package named in an import statement: the text between the
/// quotes after `from`.
pub const PACKAGE_PATTERN: &'static str = "from\\s+['\"]([^'\"]+)['\"]";

/// A line that imports from a module.
pub const IMPORT_LINE_PATTERN: &'static str = "(?m)^import\\s+.*from\\s+['\"][^'\"]+['\"];?\\s*$";

/// What the first capture group of the leftmost match of a regular
/// expression holds, if it matches.
pub uninterp spec fn group_of(pattern: Seq<char>, haystack: Seq<char>) -> Option<Seq<char>>;

/// The byte offset at which the last match of a regular expression ends, if
/// any.
pub uninterp spec fn last_end_of(pattern: Seq<char>, haystack: Seq<char>) -> Option<usize>;

/// Relies on regex: `Regex::new` compiles the pattern, `Regex::captures`
/// finds the leftmost match, and `Captures::get(1)` with `Match::as_str` gives
/// the text of its first group, a substring of the haystack. A pattern that
/// does not compile gives `None`.
#[verifier::external_body]
fn first_group(pattern: &str, haystack: &str) -> (r: Option<String>)
    ensures
        r is Some <==> group_of(pattern@, haystack@) is Some,
        r matches Some(g) ==> group_of(pattern@, haystack@) == Some(g@) && has_infix(haystack@, g@),
{
    match regex::Regex::new(pattern) {
        Ok(re) => match re.captures(haystack) {
            Some(caps) => match caps.get(1) {
                Some(m) => Some(m.as_str().to_string()),
                None => None,
            },
            None => None,
        },
        Err(_) => None,
    }
}

/// Relies on regex: `Regex::find_iter` walks the matches left to right, and
/// `Match::end` is a byte offset within the haystack that falls on a UTF-8
/// boundary. A pattern that does not compile gives `None`.
#[verifier::external_body]
fn last_match_end(pattern: &str, haystack: &str) -> (r: Option<usize>)
    ensures
        r == last_end_of(pattern@, haystack@),
        r matches Some(e) ==> e <= utf8(haystack@).len() && is_char_boundary(utf8(haystack@), e as int),
{
    match regex::Regex::new(pattern) {
        Ok(re) => match re.find_iter(haystack).last() {
            Some(m) => Some(m.end()),
            None => None,
        },
        Err(_) => None,
    }
}

/// Whether the package that an import statement names already occurs in a text.
pub open spec fn imports(content: Seq<char>, stmt: Seq<char>) -> bool {
    match group_of(PACKAGE_PATTERN@, stmt) {
        Some(p) => has_infix(content, p),
        None => false,
    }
}

/// The byte offset just past the last import line, or the start.
pub open spec fn insertion_point(content: Seq<char>) -> int {
    match last_end_of(IMPORT_LINE_PATTERN@, content) {
        Some(e) => e as int,
        None => 0,
    }
}

/// The text with a strategy's import statement on a line of its own after
/// the last import, unless the package it names already occurs.
pub open spec fn with_import(content: Seq<char>, s: ReplacementStrategy) -> Seq<char> {
    let stmt = import_statement_of(s);
    if imports(content, stmt) {
        content
    } else {
        let b = utf8(content);
        let p = insertion_point(content);
        decode_utf8(b.take(p)) + "\n"@ + stmt + "\n"@ + decode_utf8(b.skip(p))
    }
}

/// The statement names a package that occurs in it.
pub open spec fn names_package(stmt: Seq<char>) -> bool {
    group_of(PACKAGE_PATTERN@, stmt) matches Some(p) && has_infix(stmt, p)
}

/// Ensuring an import twice gives what ensuring it once gives, for a
/// strategy whose statement names its package.
pub proof fn lemma_import_idempotent(content: Seq<char>, s: ReplacementStrategy)
    requires
        names_package(import_statement_of(s)),
    ensures
        with_import(with_import(content, s), s) == with_import(content, s),
{
    let stmt = import_statement_of(s);
    if !imports(content, stmt) {
        let b = utf8(content);
        let p = insertion_point(content);
        let a = decode_utf8(b.take(p));
        let once = a + "\n"@ + stmt + "\n"@ + decode_utf8(b.skip(p));
        let pkg = group_of(PACKAGE_PATTERN@, stmt)->0;
        let i = choose|i: int| occurs_at(stmt, pkg, i);
        let at = a.len() + "\n"@.len() + i;
        assert(once.subrange(at, at + pkg.len()) =~= stmt.subrange(i, i + pkg.len()));
        assert(occurs_at(once, pkg, at));
    }
}

/// Keeps the import statement that a strategy needs present once.
pub struct SimpleImportManager;

impl SimpleImportManager {
    /// Whether the package that `import_statement` names occurs in `content`.
    pub fn has_import(content: &str, import_statement: &str) -> (r: bool)
        ensures
            r == imports(content@, import_statement@),
    {
        match first_group(PACKAGE_PATTERN, import_statement) {
            Some(package) => {
                let cs = chars_of(content);
                contains_text(&cs, package.as_str())
            },
            None => false,
        }
    }

    /// The byte offset just past the last import line, or 0.
    pub fn find_import_insertion_point(content: &str) -> (r: usize)
        ensures
            r == insertion_point(content@),
            r <= utf8(content@).len(),
            is_char_boundary(utf8(content@), r as int),
    {
        proof {
            encode_utf8_valid_utf8(content@);
            is_char_boundary_start_end_of_seq(utf8(content@));
        }
        match last_match_end(IMPORT_LINE_PATTERN, content) {
            Some(e) => e,
            None => 0,
        }
    }

    /// The text with the strategy's import statement present.
    pub fn ensure_import(&self, content: &str, file_type: FileType, strategy: &ReplacementStrategy) -> (r: String)
        ensures
            r@ == with_import(content@, *strategy),
    {
        let stmt = strategy.import_statement();
        if Self::has_import(content, stmt) {
            return owned(content);
        }
        let p = Self::find_import_insertion_point(content);
        let (a, c) = content.split_at(p);
        let mut r = owned(a);
        append(&mut r, "\n");
        append(&mut r, stmt);
        append(&mut r, "\n");
        append(&mut r, c);
        proof {
            encode_utf8_decode_utf8(a@);
            encode_utf8_decode_utf8(c@);
            assert(a@ == decode_utf8(utf8(content@).take(p as int)));
            assert(c@ == decode_utf8(utf8(content@).skip(p as int)));
        }
        r
    }
}

} // verus!
