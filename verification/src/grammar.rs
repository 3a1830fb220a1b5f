//! Grammars, and the parsers and queries that run on them.
use tree_sitter::Language as Grammar;
use tree_sitter::{LanguageError, Parser, Query, QueryCursor, QueryError, StreamingIterator, Tree};
use tree_sitter_md::{MarkdownParser, MarkdownTree};
use vstd::prelude::*;

use crate::tree::{tree_nodes, SyntaxNode};

verus! {

/// `tree_sitter::Language`: the grammar of a language.
#[verifier::external_type_specification]
#[verifier::external_body]
pub struct ExGrammar(Grammar);

/// `tree_sitter::LanguageError`: why a parser does not take a grammar.
#[verifier::external_type_specification]
#[verifier::external_body]
pub struct ExLanguageError(LanguageError);

/// `tree_sitter::Parser`: a parser, with the grammar it was given.
#[verifier::external_type_specification]
#[verifier::external_body]
pub struct ExParser(Parser);

/// `tree_sitter::Query`: a compiled query.
#[verifier::external_type_specification]
#[verifier::external_body]
pub struct ExQuery(Query);

/// `tree_sitter::QueryError`: why a query does not fit a grammar.
#[verifier::external_type_specification]
#[verifier::external_body]
pub struct ExQueryError(QueryError);

/// `tree_sitter_md::MarkdownTree`: the trees of a Markdown document.
#[verifier::external_type_specification]
#[verifier::external_body]
pub struct ExMarkdownTree(MarkdownTree);

/// A node that a query has captured, with the name the query gives to the
/// capture. The depth of the node is counted from the node itself.
#[derive(Clone, Copy, Debug)]
pub struct Capture<'a> {
    pub node: SyntaxNode<'a>,
    pub name: Option<&'a str>,
}

/// Whether a parser takes `language`: the grammar can be parsed with, and was
/// made for a version of the parser that this one still reads.
pub uninterp spec fn grammar_accepted(language: Grammar) -> bool;

/// Whether a parser that was given `language`, and nothing else, gives a tree
/// for `source`.
pub uninterp spec fn grammar_parses(language: Grammar, source: Seq<u8>) -> bool;

/// Whether `parser` is as `Parser::new` makes it.
pub uninterp spec fn parser_is_new(parser: Parser) -> bool;

/// Whether `parser`, as it stands, gives a tree for `source`.
pub uninterp spec fn parser_reads(parser: Parser, source: Seq<u8>) -> bool;

/// Whether `source` is a query that fits the grammar `language`.
pub uninterp spec fn query_fits(language: Grammar, source: Seq<char>) -> bool;

/// Whether the Markdown parser gives trees for `source`.
pub uninterp spec fn markdown_parses(source: Seq<u8>) -> bool;

/// `Parser::new`: a parser that has no language yet.
#[verifier::external_body]
pub(crate) fn new_parser() -> (parser: Parser)
    ensures
        parser_is_new(parser),
{
    Parser::new()
}

/// `Parser::set_language`: gives the parser its language, unless the grammar
/// was made for another version of the parser or cannot be parsed with. A new
/// parser that has taken a language reads a source as `grammar_parses` says.
#[verifier::external_body]
pub(crate) fn set_language(parser: &mut Parser, language: &Grammar) -> (outcome: Result<
    (),
    LanguageError,
>)
    ensures
        outcome is Ok <==> grammar_accepted(*language),
        outcome is Ok && parser_is_new(*old(parser)) ==> forall|source: Seq<u8>|
            parser_reads(*final(parser), source) == #[trigger] grammar_parses(*language, source),
{
    parser.set_language(language)
}

/// `Parser::parse`: the tree of `source`, or nothing where the parser gives
/// none.
#[verifier::external_body]
pub(crate) fn parse_tree(parser: &mut Parser, source: &[u8]) -> (tree: Option<Tree>)
    ensures
        tree is Some <==> parser_reads(*old(parser), source@),
{
    parser.parse(source, None)
}

/// `Query::new`: the query written in `source`, for trees of `language`, or
/// why `source` is no query that fits the grammar.
#[verifier::external_body]
pub(crate) fn compile_query(language: &Grammar, source: &str) -> (query: Result<
    Query,
    QueryError,
>)
    ensures
        query is Ok <==> query_fits(*language, source@),
{
    Query::new(language, source)
}

/// Every capture of every match of `query` in `tree`, the tree of `source`,
/// in the order in which the matches are found, each with its node and the
/// name that the query gives to the capture.
pub uninterp spec fn captures_of(query: Query, tree: Tree, source: Seq<u8>) -> Seq<Capture<'static>>;

/// The nodes of the tree of the blocks of a Markdown document, in document
/// order.
pub uninterp spec fn markdown_blocks(tree: MarkdownTree) -> Seq<SyntaxNode<'static>>;

/// The nodes of each tree of inline content of a Markdown document, tree
/// after tree, each in document order.
pub uninterp spec fn markdown_inlines(tree: MarkdownTree) -> Seq<Seq<SyntaxNode<'static>>>;

/// `QueryCursor::matches`: every capture of every match of `query` in `tree`,
/// in the order in which the matches are found.
#[verifier::external_body]
pub(crate) fn query_captures<'a>(query: &'a Query, tree: &'a Tree, source: &[u8]) -> (found: Vec<
    Capture<'a>,
>)
    ensures
        found@ == captures_of(*query, *tree, source@),
{
    let mut cursor = QueryCursor::new();
    let names = query.capture_names();
    let mut found = Vec::new();
    let mut matches = cursor.matches(query, tree.root_node(), source);
    while let Some(m) = matches.next() {
        for c in m.captures() {
            let (id, kind) = (c.node.id(), c.node.kind());
            let node = SyntaxNode { id, kind, start: c.node.start_byte(), end: c.node.end_byte(), depth: 0 };
            found.push(Capture { node, name: names.get(c.index as usize).copied() });
        }
    }
    found
}

/// `MarkdownParser::parse`: the trees of the Markdown text `source`, or
/// nothing where the parser gives up.
#[verifier::external_body]
pub(crate) fn parse_markdown(source: &[u8]) -> (tree: Option<MarkdownTree>)
    ensures
        tree is Some <==> markdown_parses(source@),
{
    MarkdownParser::default().parse(source, None)
}

/// `MarkdownTree::block_tree`: the tree of the blocks of the document.
#[verifier::external_body]
pub(crate) fn block_tree(tree: &MarkdownTree) -> (blocks: &Tree)
    ensures
        tree_nodes(*blocks) == markdown_blocks(*tree),
{
    tree.block_tree()
}

/// The nodes of each of `trees`.
pub open spec fn nodes_of_trees(trees: Seq<Tree>) -> Seq<Seq<SyntaxNode<'static>>> {
    trees.map_values(|tree: Tree| tree_nodes(tree))
}

/// `MarkdownTree::inline_trees`: the trees of the inline content, one for each
/// block that has some.
#[verifier::external_body]
pub(crate) fn inline_trees(tree: &MarkdownTree) -> (inlines: &[Tree])
    ensures
        nodes_of_trees(inlines@) == markdown_inlines(*tree),
{
    tree.inline_trees()
}

} // verus!
