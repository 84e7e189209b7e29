//! The grammar provider: the supported languages, the compiled-in grammar of
//! each, and parsing of source text into the plain syntax-tree model that the
//! extraction core walks.

use vstd::prelude::*;
use vstd::string::StringExecFns;

use tree_sitter::Language;

use crate::code::Point;
use crate::syntax::SyntaxNode;

verus! {

#[verifier::external_type_specification]
#[verifier::external_body]
pub struct ExLanguage(tree_sitter::Language);

#[verifier::external_type_specification]
#[verifier::external_body]
pub struct ExNode<'a>(tree_sitter::Node<'a>);

/// A grammar provider for one language: yields the grammar that parses it.
pub trait LanguagePlugin {
    fn language(&self) -> Language;
}

/// Relies on tree_sitter_java::language: the compiled-in Java grammar.
#[verifier::external_body]
fn java_language() -> Language {
    tree_sitter_java::language()
}

/// Relies on tree_sitter_javascript::language: the compiled-in JavaScript
/// grammar.
#[verifier::external_body]
fn javascript_language() -> Language {
    tree_sitter_javascript::language()
}

/// Relies on tree_sitter_typescript::language_tsx: the compiled-in TSX
/// grammar, which also parses plain TypeScript.
#[verifier::external_body]
fn typescript_language() -> Language {
    tree_sitter_typescript::language_tsx()
}

pub struct TreeSitterJavaPlugin {}

impl TreeSitterJavaPlugin {
    pub fn new() -> TreeSitterJavaPlugin {
        TreeSitterJavaPlugin {  }
    }
}

impl LanguagePlugin for TreeSitterJavaPlugin {
    fn language(&self) -> Language {
        java_language()
    }
}

pub struct TreeSitterJavaScriptPlugin {}

impl TreeSitterJavaScriptPlugin {
    pub fn new() -> TreeSitterJavaScriptPlugin {
        TreeSitterJavaScriptPlugin {  }
    }
}

impl LanguagePlugin for TreeSitterJavaScriptPlugin {
    fn language(&self) -> Language {
        javascript_language()
    }
}

pub struct TreeSitterTypeScriptPlugin {}

impl TreeSitterTypeScriptPlugin {
    pub fn new() -> TreeSitterTypeScriptPlugin {
        TreeSitterTypeScriptPlugin {  }
    }
}

impl LanguagePlugin for TreeSitterTypeScriptPlugin {
    fn language(&self) -> Language {
        typescript_language()
    }
}

/// The languages a compiled-in grammar exists for.
#[derive(Clone, Copy, Debug, PartialEq, Eq, Structural)]
pub enum SupportedLanguage {
    Java,
    JavaScript,
    TypeScript,
}

impl SupportedLanguage {
    /// The language a command-line identifier names: `java`, `js` or `ts`.
    /// Any other identifier is unsupported and yields `None`.
    pub fn from_name(name: &str) -> (r: Option<SupportedLanguage>)
        ensures
            match r {
                Some(l) => (name@ == "java"@ && l is Java) || (name@ == "js"@ && l is JavaScript)
                    || (name@ == "ts"@ && l is TypeScript),
                None => name@ != "java"@ && name@ != "js"@ && name@ != "ts"@,
            },
    {
        let n = String::from_str(name);
        if n == String::from_str("java") {
            Some(SupportedLanguage::Java)
        } else if n == String::from_str("js") {
            Some(SupportedLanguage::JavaScript)
        } else if n == String::from_str("ts") {
            Some(SupportedLanguage::TypeScript)
        } else {
            None
        }
    }

    /// The grammar for this language, obtained from its compiled-in provider.
    pub fn language(&self) -> Language {
        match self {
            SupportedLanguage::Java => TreeSitterJavaPlugin::new().language(),
            SupportedLanguage::JavaScript => TreeSitterJavaScriptPlugin::new().language(),
            SupportedLanguage::TypeScript => TreeSitterTypeScriptPlugin::new().language(),
        }
    }
}

/// Relies on tree_sitter::Node navigation (kind, utf8_text, start_position,
/// end_position, children): rebuilds the node's subtree, one plain node per
/// tree node, in the tree's own child order.
#[verifier::external_body]
fn convert_node(node: tree_sitter::Node<'_>, source: &str) -> (r: SyntaxNode) {
    let mut children = Vec::new();
    let mut cursor = node.walk();
    for child in node.children(&mut cursor) {
        children.push(convert_node(child, source));
    }
    SyntaxNode {
        kind: String::from_str(node.kind()),
        text: String::from_str(node.utf8_text(source.as_bytes()).unwrap_or("")),
        start: Point { row: node.start_position().row, column: node.start_position().column },
        end: Point { row: node.end_position().row, column: node.end_position().column },
        children,
    }
}

/// What parsing source text with one language's compiled-in grammar yields.
/// A grammar is deterministic: for a fixed language the tree is a function of
/// the source text alone, so the outcome carries a name; what tree that is
/// stays the grammar's own affair. `None` stands for a rejected parse.
pub uninterp spec fn parsed_of(language: SupportedLanguage, code: Seq<char>) -> Option<SyntaxNode>;

/// Relies on tree_sitter::Parser::parse: parses the source text with the
/// language's compiled-in grammar and rebuilds the resulting tree as plain
/// values. Parsing succeeds on every input: the compiled-in grammars carry a
/// language version the linked parser accepts, so setting the language cannot
/// fail, and parse returns nothing only without a language, on a timeout or
/// on a cancellation flag, none of which is used here; source the grammar
/// rejects still yields a tree, with error nodes.
#[verifier::external_body]
pub fn parse(code: &str, language: SupportedLanguage) -> (r: Option<SyntaxNode>)
    ensures
        r == parsed_of(language, code@),
        r is Some,
{
    let grammar = match language {
        SupportedLanguage::Java => java_language(),
        SupportedLanguage::JavaScript => javascript_language(),
        SupportedLanguage::TypeScript => typescript_language(),
    };
    let mut parser = tree_sitter::Parser::new();
    if parser.set_language(grammar).is_err() {
        return None;
    }
    match parser.parse(code, None) {
        Some(tree) => Some(convert_node(tree.root_node(), code)),
        None => None,
    }
}

} // verus!
