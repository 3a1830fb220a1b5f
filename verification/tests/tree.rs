use typope::grammar::Capture;
use typope::lang::{
    select_captures, select_generic, select_markdown, ByteRange, Language, LintableNode,
    LintableString, Mode, ParseError,
};
use typope::SharedSource;
use typope::tree::{PreorderTraversal, SyntaxNode, SyntaxTree};

fn node(kind: &'static str, start: usize, end: usize, depth: usize) -> SyntaxNode<'static> {
    SyntaxNode { id: start * 1000 + end, kind, start, end, depth }
}

fn kinds_and_ranges(nodes: &[LintableNode]) -> Vec<(String, usize, usize)> {
    nodes
        .iter()
        .map(|n| (n.kind().to_owned(), n.byte_range().start, n.byte_range().end))
        .collect()
}

#[test]
fn from_nodes_takes_the_shape_of_a_tree() {
    assert!(SyntaxTree::from_nodes(vec![]).is_none());
    assert!(SyntaxTree::from_nodes(vec![node("a", 0, 1, 1)]).is_none());
    assert!(SyntaxTree::from_nodes(vec![node("a", 0, 1, 0), node("b", 0, 1, 0)]).is_none());
    assert!(SyntaxTree::from_nodes(vec![node("a", 0, 1, 0), node("b", 0, 1, 2)]).is_none());
    let tree = SyntaxTree::from_nodes(vec![
        node("a", 0, 9, 0),
        node("b", 0, 4, 1),
        node("c", 0, 2, 2),
        node("d", 4, 9, 1),
    ])
    .unwrap();
    assert_eq!(tree.len(), 4);
    assert_eq!(tree.node(2).kind, "c");
    assert_eq!(tree.node(2).len(), 2);
}

#[test]
fn parent_and_children_follow_the_depths() {
    let tree = SyntaxTree::from_nodes(vec![
        node("root", 0, 20, 0),
        node("a", 0, 8, 1),
        node("a1", 0, 4, 2),
        node("a2", 4, 8, 2),
        node("a21", 4, 6, 3),
        node("b", 8, 12, 1),
        node("c", 12, 20, 1),
        node("c1", 12, 20, 2),
    ])
    .unwrap();
    let parents: Vec<Option<usize>> = (0..tree.len()).map(|i| tree.parent(i)).collect();
    assert_eq!(
        parents,
        vec![None, Some(0), Some(1), Some(1), Some(3), Some(0), Some(0), Some(6)]
    );
    let kinds = |i: usize| -> Vec<&str> { tree.children(i).iter().map(|n| n.kind).collect() };
    assert_eq!(kinds(0), vec!["a", "b", "c"]);
    assert_eq!(kinds(1), vec!["a1", "a2"]);
    assert_eq!(kinds(3), vec!["a21"]);
    assert!(kinds(4).is_empty());
    assert!(kinds(5).is_empty());
    assert_eq!(kinds(6), vec!["c1"]);
    assert!(kinds(7).is_empty());
}

#[test]
fn traversal_visits_every_node_once_in_document_order() {
    let source = "fn f() { g(1, \"two\"); }";
    let mut parser = tree_sitter::Parser::new();
    parser
        .set_language(&tree_sitter::Language::new(tree_sitter_rust::LANGUAGE))
        .unwrap();
    let tree = parser.parse(source, None).unwrap();

    let mut traversal = PreorderTraversal::new(&tree);
    let mut visited = Vec::new();
    while let Some(node) = traversal.next() {
        visited.push(node);
    }
    assert!(traversal.next().is_none());
    assert_eq!(visited.len(), tree.root_node().descendant_count());

    let mut cursor = tree.walk();
    for (index, node) in visited.iter().enumerate() {
        cursor.goto_descendant(index);
        assert_eq!(node.id, cursor.node().id());
        assert_eq!(node.kind, cursor.node().kind());
        assert_eq!(node.start, cursor.node().start_byte());
        assert_eq!(node.end, cursor.node().end_byte());
        assert_eq!(node.depth, cursor.depth() as usize);
    }

    let nodes = SyntaxTree::from_tree(&tree);
    assert_eq!(nodes.len(), visited.len());
    for index in 1..nodes.len() {
        let parent = nodes.parent(index).unwrap();
        cursor.goto_descendant(index);
        assert!(cursor.goto_parent());
        assert_eq!(cursor.descendant_index(), parent);
    }
}

#[test]
fn generic_selection_takes_long_nodes_of_the_kinds() {
    let tree = SyntaxTree::from_nodes(vec![
        node("source_file", 0, 40, 0),
        node("string_literal", 0, 6, 1),
        node("string_content", 1, 5, 2),
        node("string_literal", 10, 15, 1),
        node("string_content", 11, 14, 2),
        node("comment", 20, 40, 1),
    ])
    .unwrap();
    let selected = select_generic(&tree, &["string_content"]);
    assert_eq!(kinds_and_ranges(&selected), vec![("string_content".to_owned(), 1, 5)]);
    let selected = select_generic(&tree, &["string_content", "comment"]);
    assert_eq!(
        kinds_and_ranges(&selected),
        vec![("string_content".to_owned(), 1, 5), ("comment".to_owned(), 20, 40)]
    );
    assert!(select_generic(&tree, &[]).is_empty());
}

#[test]
fn generic_selection_leaves_raw_strings_alone() {
    let tree = SyntaxTree::from_nodes(vec![
        node("source_file", 0, 60, 0),
        node("raw_string_literal", 0, 20, 1),
        node("string_content", 2, 19, 2),
        node("string_literal", 30, 50, 1),
        node("string_content", 31, 49, 2),
        node("escape_sequence", 35, 37, 3),
    ])
    .unwrap();
    let selected = select_generic(&tree, &["string_content"]);
    assert_eq!(kinds_and_ranges(&selected), vec![("string_content".to_owned(), 31, 49)]);
}

#[test]
fn raw_string_of_a_grammar_is_left_alone() {
    let source = "const char *a = R\"(raw ? text)\";\nconst char *b = \"plain ? text\";\n";
    let mut parser = tree_sitter::Parser::new();
    parser
        .set_language(&tree_sitter::Language::new(tree_sitter_cpp::LANGUAGE))
        .unwrap();
    let tree = parser.parse(source, None).unwrap();
    let nodes = SyntaxTree::from_tree(&tree);
    let selected = select_generic(&nodes, &["string_content", "raw_string_content"]);
    let strings: Vec<LintableString> = selected
        .iter()
        .flat_map(|n| n.lintable_strings(source.as_bytes()))
        .collect();
    assert!(strings.iter().any(|s| s.as_str() == "plain ? text"));
}

#[test]
fn captures_are_checked_without_ignored_names() {
    let captures = vec![
        Capture { node: node("string_content", 0, 10, 0), name: Some("strings") },
        Capture { node: node("string_content", 20, 23, 0), name: Some("strings") },
        Capture { node: node("string_content", 30, 40, 0), name: None },
    ];
    let selected = select_captures(&captures, None);
    assert_eq!(
        kinds_and_ranges(&selected),
        vec![("string_content".to_owned(), 0, 10), ("string_content".to_owned(), 30, 40)]
    );
}

#[test]
fn captures_with_an_ignored_name_suppress_their_node() {
    let docstring = node("string", 0, 30, 0);
    let string = node("string", 40, 50, 0);
    let captures = vec![
        Capture { node: string, name: Some("strings") },
        Capture { node: docstring, name: Some("docstring") },
        Capture { node: docstring, name: Some("strings") },
        Capture { node: string, name: Some("strings") },
        Capture { node: node("string", 60, 70, 0), name: None },
        Capture { node: node("string", 80, 82, 0), name: Some("docstring") },
    ];
    let selected = select_captures(&captures, Some(&["docstring"]));
    assert_eq!(
        kinds_and_ranges(&selected),
        vec![("string".to_owned(), 40, 50), ("string".to_owned(), 40, 50)]
    );
}

#[test]
fn captures_before_the_ignored_one_are_checked() {
    let docstring = node("string", 0, 30, 0);
    let captures = vec![
        Capture { node: docstring, name: Some("strings") },
        Capture { node: docstring, name: Some("docstring") },
        Capture { node: docstring, name: Some("strings") },
    ];
    let selected = select_captures(&captures, Some(&["docstring"]));
    assert_eq!(kinds_and_ranges(&selected), vec![("string".to_owned(), 0, 30)]);
}

#[test]
fn markdown_selection_leaves_block_quotes_and_code_alone() {
    let block = SyntaxTree::from_nodes(vec![
        node("document", 0, 100, 0),
        node("paragraph", 0, 30, 1),
        node("inline", 0, 30, 2),
        node("block_quote", 40, 70, 1),
        node("paragraph", 42, 70, 2),
        node("inline", 42, 70, 3),
        node("paragraph", 80, 83, 1),
        node("inline", 80, 83, 2),
    ])
    .unwrap();
    let inlines = vec![
        SyntaxTree::from_nodes(vec![
            node("inline", 0, 30, 0),
            node("code_span", 5, 12, 1),
            node("code_span_delimiter", 5, 6, 2),
            node("emphasis", 14, 20, 1),
            node("code_span", 15, 19, 2),
            node("image", 24, 30, 1),
        ])
        .unwrap(),
        SyntaxTree::from_nodes(vec![node("inline", 42, 70, 0)]).unwrap(),
        SyntaxTree::from_nodes(vec![node("inline", 69, 75, 0)]).unwrap(),
        SyntaxTree::from_nodes(vec![node("inline", 80, 83, 0)]).unwrap(),
        SyntaxTree::from_nodes(vec![node("inline", 84, 90, 0), node("code_span", 84, 88, 1)]).unwrap(),
        SyntaxTree::from_nodes(vec![node("inline", 90, 100, 0), node("inline", 91, 99, 1)]).unwrap(),
    ];
    let selected = select_markdown(&block, &inlines, &["inline"]);
    assert_eq!(
        kinds_and_ranges(&selected),
        vec![
            ("inline".to_owned(), 0, 30),
            ("inline".to_owned(), 90, 100),
            ("inline".to_owned(), 91, 99)
        ]
    );
    assert_eq!(
        selected[0].lintable_ranges(),
        vec![ByteRange::new(0, 5), ByteRange::new(12, 24)]
    );
    assert_eq!(selected[1].lintable_ranges(), vec![ByteRange::new(90, 100)]);
}

#[test]
fn query_that_does_not_fit_the_grammar_is_refused() {
    let language = Language::new(
        "rust",
        vec!["*.rs"],
        Mode::Query {
            language: tree_sitter::Language::new(tree_sitter_rust::LANGUAGE),
            query: "(no_such_node) @strings".into(),
            ignore_captures: None,
        },
    );
    assert_eq!(language.name(), "rust");
    assert_eq!(language.detections(), &["*.rs"]);
    let source = SharedSource::new("file.rs", b"fn f() {}".to_vec());
    assert_eq!(language.parse(&source).err(), Some(ParseError::InvalidQuery));
    assert_eq!(ParseError::InvalidQuery.message(), "Invalid query");
    assert_eq!(ParseError::InvalidLanguage.message(), "Invalid language");
    assert_eq!(ParseError::IncompatibleGrammar.message(), "Incompatible language version");
}

#[test]
fn query_with_ignored_captures_leaves_docstrings_alone() {
    let python = r#"
def f():
    """A docstring : not checked"""
    return "a string : checked"
"#;
    let query = r#"
(function_definition body: (block . (expression_statement (string (string_content) @docstring))))
(string (string_content) @strings)
"#;
    let language = |ignore_captures| {
        Language::new(
            "python",
            vec!["*.py"],
            Mode::Query {
                language: tree_sitter::Language::new(tree_sitter_python::LANGUAGE),
                query: query.into(),
                ignore_captures,
            },
        )
    };
    let source = SharedSource::new("file.py", python.as_bytes().to_vec());

    let parsed = language(Some(vec!["docstring"])).parse(&source).unwrap();
    let strings: Vec<String> =
        parsed.strings(source.as_bytes()).into_iter().map(|s| s.into_string()).collect();
    assert_eq!(strings, vec!["a string : checked"]);

    let parsed = language(None).parse(&source).unwrap();
    let strings: Vec<String> =
        parsed.strings(source.as_bytes()).into_iter().map(|s| s.into_string()).collect();
    assert_eq!(
        strings,
        vec!["A docstring : not checked", "A docstring : not checked", "a string : checked"]
    );
    let nodes = parsed.lintable_nodes();
    assert_eq!(nodes.len(), 3);
    assert!(nodes.iter().all(|n| n.kind() == "string_content"));
}
