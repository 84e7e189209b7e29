use control_cli::code::Point;
use control_cli::extract::extract_regions;
use control_cli::extract::get_control_commented_code;
use control_cli::fs::ReadFile;
use control_cli::parser::parse;
use control_cli::parser::SupportedLanguage;
use control_cli::syntax::traverse_and_select;
use control_cli::syntax::SyntaxNode;

fn is_comment_kind(kind: &str) -> bool {
    kind == "comment" || kind == "block_comment" || kind == "line_comment"
}

#[test]
fn check_get_control_commented_code() {
    let files = vec![
        ReadFile::new(
            "tests/resources/js/subdirectory/submodule.js".to_string(),
            "// control SUB-1\nconst submodule = () => {\n  return 'submodule';\n}\n".to_string(),
        ),
        ReadFile::new(
            "tests/resources/js/index.js".to_string(),
            "/* control HE-110 JS-1 */\nconsole.log('Hello world!');\n".to_string(),
        ),
    ];
    let commented_code = get_control_commented_code(&files, SupportedLanguage::JavaScript);
    assert_eq!(commented_code.len(), 2);
    assert!(commented_code[0].get_path().contains("tests/resources/js/subdirectory/submodule.js"));
    assert_eq!(commented_code[0].get_comment(), "// control SUB-1");
    assert_eq!(
        commented_code[0].get_content(),
        "const submodule = () => {\n  return 'submodule';\n}"
    );
    assert!(commented_code[1].get_path().contains("tests/resources/js/index.js"));
    assert_eq!(commented_code[1].get_comment(), "/* control HE-110 JS-1 */");
    assert_eq!(commented_code[1].get_content(), "console.log('Hello world!');");
}

#[test]
fn check_tree_traversal() {
    let code = r#"// control T84
public class Test {
    public static void main(String[] args) {
        // control T83
        System.out.println("Hello, World!");
    }
}"#;
    let tree = parse(code, SupportedLanguage::Java).unwrap();
    let nodes = traverse_and_select(
        &tree,
        |siblings: &Vec<SyntaxNode>, i: usize| -> Option<SyntaxNode> {
            if is_comment_kind(siblings[i].kind.as_str()) {
                if i + 1 < siblings.len() {
                    return Some(siblings[i + 1].clone());
                }
                return Some(siblings[i].clone());
            }
            None
        },
    );
    assert_eq!(nodes.len(), 2);

    let node_t84 = &nodes[0];
    assert_eq!(
        node_t84.text,
        r#"public class Test {
    public static void main(String[] args) {
        // control T83
        System.out.println("Hello, World!");
    }
}"#
    );
    let node_t83 = &nodes[1];
    assert_eq!(node_t83.text, "System.out.println(\"Hello, World!\");");
}

#[test]
fn check_parse_javascript_comment() {
    let code = "function add(a, b) {
  // control T84
  return a + b;
}";
    let tree = parse(code, SupportedLanguage::JavaScript).unwrap();
    let fdecl = &tree.children[0];
    let block = &fdecl.children[3];
    let comment = &block.children[1];
    assert_eq!(comment.kind, "comment");
    assert_eq!(comment.text, "// control T84");
    let next = &block.children[2];
    assert_eq!(next.kind, "return_statement");
}

#[test]
fn check_parse_javascript_multiline_comment() {
    let code = "function add(a, b) {
  /**
   * control T84
  **/
  return a + b;
}";
    let tree = parse(code, SupportedLanguage::JavaScript).unwrap();
    let fdecl = &tree.children[0];
    let block = &fdecl.children[3];
    let comment = &block.children[1];
    assert_eq!(comment.kind, "comment");
    assert_eq!(comment.text, "/**\n   * control T84\n  **/");
}

#[test]
fn check_parse_javascript() {
    let code = "function add(a, b) {
  return a + b;
}";
    let tree = parse(code, SupportedLanguage::JavaScript).unwrap();
    assert_eq!(tree.kind, "program");

    let fdecl = &tree.children[0];
    assert_eq!(fdecl.kind, "function_declaration");
    assert_eq!(fdecl.children[0].kind, "function");
    assert_eq!(fdecl.children[1].kind, "identifier");
    assert_eq!(fdecl.children[1].text, "add");
    assert_eq!(fdecl.children[2].kind, "formal_parameters");
    let block = &fdecl.children[3];
    assert_eq!(block.kind, "statement_block");
    assert_eq!(block.children[0].kind, "{");
    let ret = &block.children[1];
    assert_eq!(ret.kind, "return_statement");
    assert_eq!(ret.children[0].kind, "return");
    let bin = &ret.children[1];
    assert_eq!(bin.kind, "binary_expression");
    assert_eq!(bin.children[0].kind, "identifier");
    assert_eq!(bin.children[1].kind, "+");
    assert_eq!(bin.children[2].kind, "identifier");
    assert_eq!(ret.children[2].kind, ";");
    assert_eq!(block.children[2].kind, "}");
}

#[test]
fn check_parse_java_comment() {
    let code = "public class Math {
    // control T84
    public static int add(int a, int b) {
        return a + b;
    }
}";
    let tree = parse(code, SupportedLanguage::Java).unwrap();
    let class = &tree.children[0];
    assert_eq!(class.kind, "class_declaration");
    assert_eq!(class.children[0].kind, "modifiers");
    assert_eq!(class.children[1].kind, "class");
    assert_eq!(class.children[2].kind, "identifier");
    assert_eq!(class.children[2].text, "Math");
    let body = &class.children[3];
    assert_eq!(body.kind, "class_body");
    assert_eq!(body.children[0].kind, "{");
    let comment = &body.children[1];
    assert_eq!(comment.kind, "line_comment");
    assert_eq!(comment.text, "// control T84");
}

#[test]
fn check_parse_java_multiline_comment() {
    let code = "public class Math {
    /*
      control T84
    */
    public static int add(int a, int b) {
        return a + b;
    }
}";
    let tree = parse(code, SupportedLanguage::Java).unwrap();
    let class = &tree.children[0];
    assert_eq!(class.kind, "class_declaration");
    assert_eq!(class.children[0].kind, "modifiers");
    assert_eq!(class.children[1].kind, "class");
    assert_eq!(class.children[2].kind, "identifier");
    assert_eq!(class.children[2].text, "Math");
    let body = &class.children[3];
    assert_eq!(body.kind, "class_body");
    assert_eq!(body.children[0].kind, "{");
    let comment = &body.children[1];
    assert_eq!(comment.kind, "block_comment");
    assert_eq!(comment.text, "/*\n      control T84\n    */");
}

#[test]
fn check_parse_java() {
    let code = "public class Math {
    public static int add(int a, int b) {
        return a + b;
    }
}";
    let tree = parse(code, SupportedLanguage::Java).unwrap();
    assert_eq!(tree.kind, "program");
    assert_eq!(tree.start, Point::new(0, 0));
    assert_eq!(tree.end, Point::new(4, 1));

    let class = &tree.children[0];
    assert_eq!(class.kind, "class_declaration");
    assert_eq!(class.children[0].kind, "modifiers");
    assert_eq!(class.children[1].kind, "class");
    assert_eq!(class.children[2].kind, "identifier");
    assert_eq!(class.children[2].text, "Math");
    let body = &class.children[3];
    assert_eq!(body.kind, "class_body");
    assert_eq!(body.children[0].kind, "{");
    let method = &body.children[1];
    assert_eq!(method.kind, "method_declaration");
    assert_eq!(method.children[0].kind, "modifiers");
    assert_eq!(method.children[1].kind, "integral_type");
    assert_eq!(method.children[2].kind, "identifier");
    assert_eq!(method.children[2].text, "add");
    assert_eq!(method.children[3].kind, "formal_parameters");
    let mblock = &method.children[4];
    assert_eq!(mblock.kind, "block");
    assert_eq!(mblock.children[0].kind, "{");
    let ret = &mblock.children[1];
    assert_eq!(ret.kind, "return_statement");
    assert_eq!(ret.children[0].kind, "return");
    let bin = &ret.children[1];
    assert_eq!(bin.kind, "binary_expression");
    assert_eq!(bin.children[0].kind, "identifier");
    assert_eq!(bin.children[1].kind, "+");
    assert_eq!(bin.children[2].kind, "identifier");
    assert_eq!(ret.children[2].kind, ";");
    assert_eq!(mblock.children[2].kind, "}");
    assert_eq!(body.children[2].kind, "}");
}

#[test]
fn sibling_pairing_captures_exact_declaration() {
    let code = "// control P6\nfunction add(a, b) {\n  return a + b;\n}\nconsole.log(add(1, 2));\n";
    let tree = parse(code, SupportedLanguage::JavaScript).unwrap();
    let regions = extract_regions("main.js", &tree);
    assert_eq!(regions.len(), 1);
    assert_eq!(regions[0].get_comment(), "// control P6");
    assert_eq!(regions[0].get_content(), "function add(a, b) {\n  return a + b;\n}");
    assert_eq!(regions[0].get_start(), Point::new(1, 0));
    assert_eq!(regions[0].get_end(), Point::new(3, 1));
}

#[test]
fn missing_sibling_yields_no_region() {
    let code = "const x = 1;\n// control LAST-1\n";
    let tree = parse(code, SupportedLanguage::JavaScript).unwrap();
    let regions = extract_regions("main.js", &tree);
    assert_eq!(regions.len(), 0);
}

#[test]
fn missing_sibling_keeps_other_regions() {
    let code = "// control A1\nconst x = 1;\nconst y = 2;\n// control Z9\n";
    let tree = parse(code, SupportedLanguage::JavaScript).unwrap();
    let regions = extract_regions("main.js", &tree);
    assert_eq!(regions.len(), 1);
    assert_eq!(regions[0].get_comment(), "// control A1");
    assert_eq!(regions[0].get_content(), "const x = 1;");
}

#[test]
fn non_matching_comment_does_not_interrupt_pairing() {
    let code = "// just a note\nconst x = 1;\n// control T1\nconst y = 2;\n";
    let tree = parse(code, SupportedLanguage::JavaScript).unwrap();
    let regions = extract_regions("main.js", &tree);
    assert_eq!(regions.len(), 1);
    assert_eq!(regions[0].get_comment(), "// control T1");
    assert_eq!(regions[0].get_content(), "const y = 2;");
}

#[test]
fn file_without_matches_contributes_zero_regions() {
    let files = vec![
        ReadFile::new("a.js".to_string(), "// control A1\nconst x = 1;\n".to_string()),
        ReadFile::new("b.js".to_string(), "\u{0}\u{0}".to_string()),
    ];
    let regions = get_control_commented_code(&files, SupportedLanguage::JavaScript);
    assert_eq!(regions.len(), 1);
    assert_eq!(regions[0].get_path(), "a.js");
}

#[test]
fn supported_language_from_name() {
    assert!(matches!(SupportedLanguage::from_name("java"), Some(SupportedLanguage::Java)));
    assert!(matches!(SupportedLanguage::from_name("js"), Some(SupportedLanguage::JavaScript)));
    assert!(matches!(SupportedLanguage::from_name("ts"), Some(SupportedLanguage::TypeScript)));
    assert!(SupportedLanguage::from_name("guava").is_none());
    assert!(SupportedLanguage::from_name("").is_none());
}

#[test]
fn typescript_grammar_parses() {
    let code = "// control TS-1\nconst x: number = 1;\n";
    let tree = parse(code, SupportedLanguage::TypeScript).unwrap();
    let regions = extract_regions("main.ts", &tree);
    assert_eq!(regions.len(), 1);
    assert_eq!(regions[0].get_content(), "const x: number = 1;");
}
