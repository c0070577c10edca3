use vstd::prelude::*;
use crate::document::BladeDocument;

verus! {

#[verifier::external_type_specification]
#[verifier::external_body]
pub struct ExParser(tree_sitter::Parser);

#[verifier::external_type_specification]
#[verifier::external_body]
pub struct ExLanguage(tree_sitter::Language);

#[verifier::external_type_specification]
#[verifier::external_body]
pub struct ExLanguageError(tree_sitter::LanguageError);

/// The text that a syntax tree was parsed from.
pub uninterp spec fn parsed_text(tree: tree_sitter::Tree) -> Seq<char>;

/// Calls `tree_sitter::Parser::new`.
#[verifier::external_body]
fn new_parser() -> tree_sitter::Parser {
    tree_sitter::Parser::new()
}

/// The grammar version of a language: the number that says for which
/// version of the parser library the grammar was generated.
pub uninterp spec fn language_version(language: tree_sitter::Language) -> usize;

/// Calls `tree_sitter::Parser::set_language`, which takes a language whose
/// grammar version the parser library supports, and refuses any other: it
/// holds the version against `tree_sitter::MIN_COMPATIBLE_LANGUAGE_VERSION`
/// and `tree_sitter::LANGUAGE_VERSION`.
#[verifier::external_body]
fn set_language(parser: &mut tree_sitter::Parser, language: &tree_sitter::Language) -> (r: Result<
    (),
    tree_sitter::LanguageError,
>)
    ensures
        r is Ok <==> supported_version(language_version(*language)),
{
    parser.set_language(language)
}

/// What a fresh parser with the grammar `language` gives for a text that it
/// parses from scratch: the tree of the text, or nothing.
pub uninterp spec fn parse_outcome(language: tree_sitter::Language, text: Seq<char>) -> Option<
    tree_sitter::Tree,
>;

/// Makes a parser with `tree_sitter::Parser::new`, gives it the grammar with
/// `tree_sitter::Parser::set_language`, and calls
/// `tree_sitter::Parser::parse` on the whole text, with no earlier tree. The
/// parser serves this one run, with no time limit and nothing to cancel it,
/// so what comes back is up to the grammar and the text alone. A tree that
/// comes back is the tree of that text.
#[verifier::external_body]
fn parse_text(language: &tree_sitter::Language, text: &str) -> (r: Option<tree_sitter::Tree>)
    ensures
        r == parse_outcome(*language, text@),
        r matches Some(tree) ==> parsed_text(tree) == text@,
{
    let mut parser = tree_sitter::Parser::new();
    parser.set_language(language).ok()?;
    parser.parse(text, None)
}

/// Calls `Clone::clone` of `tree_sitter::Language`: the copy is the same
/// grammar.
#[verifier::external_body]
fn clone_language(language: &tree_sitter::Language) -> (r: tree_sitter::Language)
    ensures
        r == *language,
{
    language.clone()
}

/// Why no parser could be made.
#[derive(Clone, Copy, Debug, PartialEq, Eq, Structural)]
pub enum ParserError {
    /// The grammar was generated for another version of the parser library.
    IncompatibleLanguage,
}

/// The parsing capability: a grammar that the parser library takes, and the
/// number of times that a text was parsed with it. Every parse is a run of
/// its own, from scratch.
pub struct BladeParser {
    language: tree_sitter::Language,
    parses: u64,
}

/// The parsed document that a tree makes, if there is a tree.
pub open spec fn document_of(tree: Option<tree_sitter::Tree>) -> Option<BladeDocument> {
    match tree {
        Some(tree) => Some(BladeDocument { tree }),
        None => None,
    }
}

impl BladeParser {
    /// How often the parser has been run; it stops counting at `u64::MAX`.
    pub closed spec fn parses(&self) -> u64 {
        self.parses
    }

    /// The grammar that the parser parses with.
    pub closed spec fn grammar(&self) -> tree_sitter::Language {
        self.language
    }

    /// What the parser gives for `text`: the parsed document of the text, or
    /// nothing. It is up to the grammar and the text alone.
    pub open spec fn outcome(&self, text: Seq<char>) -> Option<BladeDocument> {
        document_of(parse_outcome(self.grammar(), text))
    }

    /// A parser for the grammar `language` that has not run yet. It is made
    /// exactly where the parser library takes the version of the grammar.
    pub fn new(language: &tree_sitter::Language) -> (r: Result<BladeParser, ParserError>)
        ensures
            match r {
                Ok(parser) => supported_version(language_version(*language)) && parser.parses()
                    == 0 && parser.grammar() == *language,
                Err(e) => !supported_version(language_version(*language)) && e
                    == ParserError::IncompatibleLanguage,
            },
    {
        let mut parser = new_parser();
        match set_language(&mut parser, language) {
            Ok(_) => Ok(BladeParser { language: clone_language(language), parses: 0 }),
            Err(_) => Err(ParserError::IncompatibleLanguage),
        }
    }

    /// How often the parser has been run.
    pub fn parse_count(&self) -> (r: u64)
        ensures
            r == self.parses(),
    {
        self.parses
    }

    /// Parses `contents` from scratch and counts the run. What the grammar
    /// gives for the text is handed out as it is, the same for the same
    /// text whenever it is asked, and a document that comes back is the
    /// document of `contents`.
    pub fn parse(&mut self, contents: &str) -> (r: Option<BladeDocument>)
        ensures
            r == old(self).outcome(contents@),
            final(self).grammar() == old(self).grammar(),
            final(self).parses() == counted_once_more(old(self).parses()),
            r matches Some(document) ==> document.text() == contents@,
    {
        self.parses = self.parses.saturating_add(1);
        match parse_text(&self.language, contents) {
            Some(tree) => Some(BladeDocument { tree }),
            None => None,
        }
    }
}

/// `count` and one more, as far as 64 bits go.
pub open spec fn counted_once_more(count: u64) -> u64 {
    if count < u64::MAX {
        (count + 1) as u64
    } else {
        count
    }
}

/// The earliest grammar version that the parser library takes; it is
/// `tree_sitter::MIN_COMPATIBLE_LANGUAGE_VERSION`.
pub const MIN_COMPATIBLE_LANGUAGE_VERSION: usize = 13;

/// The latest grammar version that the parser library takes; it is
/// `tree_sitter::LANGUAGE_VERSION`.
pub const LANGUAGE_VERSION: usize = 15;

/// Whether the parser library takes grammars of the version `version`.
pub open spec fn supported_version(version: usize) -> bool {
    MIN_COMPATIBLE_LANGUAGE_VERSION <= version <= LANGUAGE_VERSION
}

} // verus!
