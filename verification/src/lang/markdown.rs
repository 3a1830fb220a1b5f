//! Markdown: the prose of a document, without its quotes and its code.
use tree_sitter_md::MarkdownTree;
use vstd::prelude::*;

use super::{
    is_markdown_selection, LintableNodeView, lemma_markdown_all_long_enough, long_enough, markdown_selections,
    node_views, select_markdown, tree_views, CustomParser, Language, LintableNode, Mode, ParseError, Strategy,
};
use crate::grammar::{
    block_tree, inline_trees, markdown_blocks, markdown_inlines, markdown_parses, nodes_of_trees,
    parse_markdown,
};
use crate::text::words_of;
use crate::tree::{tree_nodes, SyntaxNode, SyntaxTree};

verus! {

/// Parser for Markdown that helps to ignore text in code span
pub struct ParsedMarkdown {
    tree: MarkdownTree,
}

/// The kinds of the nodes of inline Markdown that are checked.
pub open spec fn prose_kinds() -> Seq<Seq<char>> {
    seq!["inline"@]
}

impl ParsedMarkdown {
    /// Parses `text` as Markdown. The text is refused where the parser
    /// gives no trees for it.
    pub fn new(text: &[u8]) -> (parsed: Result<Self, ParseError>)
        ensures
            parsed is Ok <==> markdown_parses(text@),
            parsed matches Err(e) ==> e == ParseError::InvalidLanguage,
    {
        match parse_markdown(text) {
            Some(tree) => Ok(ParsedMarkdown { tree }),
            None => Err(ParseError::InvalidLanguage),
        }
    }

    /// The nodes of the tree of the blocks of the document.
    pub closed spec fn blocks(&self) -> Seq<SyntaxNode<'static>> {
        markdown_blocks(self.tree)
    }

    /// The nodes of each tree of inline content of the document.
    pub closed spec fn inlines(&self) -> Seq<Seq<SyntaxNode<'static>>> {
        markdown_inlines(self.tree)
    }

    /// The nodes that are checked: the inline nodes outside block quotes, each
    /// without its code spans and images.
    pub open spec fn selected(&self) -> Seq<LintableNodeView<'static>> {
        markdown_selections(
            self.blocks(),
            self.inlines(),
            prose_kinds(),
            self.inlines().len() as int,
        )
    }

    /// The nodes to check: the inline nodes outside block quotes, each without
    /// its code spans and images.
    pub fn lintable_nodes<'t>(&'t self) -> (nodes: Vec<LintableNode<'t>>)
        ensures
            node_views(nodes@) == self.selected(),
            is_markdown_selection(node_views(nodes@)),
            long_enough(node_views(nodes@)),
    {
        let block = SyntaxTree::from_tree(block_tree(&self.tree));
        let trees = inline_trees(&self.tree);
        let mut inlines: Vec<SyntaxTree<'t>> = Vec::new();
        let mut i: usize = 0;
        while i < trees.len()
            invariant
                i <= trees.len(),
                inlines.len() == i,
                forall|k: int| 0 <= k < inlines.len() ==> (#[trigger] inlines[k]).wf(),
                forall|k: int|
                    0 <= k < inlines.len() ==> (#[trigger] inlines[k])@ == tree_nodes(trees@[k]),
            decreases trees.len() - i,
        {
            inlines.push(SyntaxTree::from_tree(&trees[i]));
            i += 1;
        }
        assert(tree_views(inlines@) =~= nodes_of_trees(trees@));
        let kinds: [&str; 1] = ["inline"];
        assert(words_of(kinds@) =~= prose_kinds());
        let nodes = select_markdown(&block, &inlines, kinds.as_slice());
        proof {
            lemma_markdown_all_long_enough(
                block@,
                tree_views(inlines@),
                prose_kinds(),
                inlines@.len() as int,
            );
            assert(node_views(nodes@) == markdown_selections(
                block@,
                tree_views(inlines@),
                prose_kinds(),
                tree_views(inlines@).len() as int,
            ));
        }
        nodes
    }
}

impl Language {
    /// Creates a language parser for Markdown
    pub fn markdown() -> (language: Self)
        ensures
            language@.name == "markdown"@,
            language@.detections == seq!["*.md"@],
            language@.strategy == Strategy::Custom(CustomParser::Markdown),
    {
        let detections = vec!["*.md"];
        assert(words_of(detections@) =~= seq!["*.md"@]);
        Language::new("markdown", detections, Mode::Custom(CustomParser::Markdown))
    }
}

} // verus!
