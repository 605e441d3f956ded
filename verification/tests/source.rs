use kernal_api::source::{
    analyze_cpp, charge, survey_tree, AnalysisError, FunctionContext, SyntaxNode, SyntaxTable,
    MAX_DEPTH, MAX_SOURCE_BYTES,
};

fn signatures(source: &str) -> Vec<String> {
    analyze_cpp(source)
        .unwrap()
        .into_iter()
        .map(|definition| definition.signature)
        .collect()
}

#[test]
fn definitions_come_in_order_with_their_context() {
    let source = "\
int first(int a) { return a; }
namespace ns { void second() {} }
struct S { void third() {} };
extern \"C\" void fourth() {}
namespace a { class B { int fifth() { return 1; } }; }
int declared(int);
";
    let found = analyze_cpp(source).unwrap();
    let heads: Vec<&str> = found.iter().map(|item| item.signature.as_str()).collect();
    assert_eq!(
        heads,
        [
            "int first(int a)",
            "void second()",
            "void third()",
            "void fourth()",
            "int fifth()"
        ]
    );
    let context = |namespace, aggregate, explicit_linkage| FunctionContext {
        namespace,
        aggregate,
        explicit_linkage,
    };
    let contexts: Vec<FunctionContext> = found.iter().map(|item| item.context).collect();
    assert_eq!(
        contexts,
        [
            context(false, false, false),
            context(true, false, false),
            context(false, true, false),
            context(false, false, true),
            context(true, true, false)
        ]
    );
    assert_eq!(found[0].source_range, 0..17);
    assert_eq!(&source[found[0].source_range.clone()], "int first(int a) ");
}

#[test]
fn defaults_are_left_out_of_the_header() {
    assert_eq!(
        signatures("void f(int a = 1, int b  =  2, int c) {}"),
        ["void f(int a, int b, int c)"]
    );
    assert_eq!(
        signatures("void f(int a // why\n = 1) {}"),
        ["void f(int a // why\n)"]
    );
}

#[test]
fn templates_belong_to_the_header() {
    assert_eq!(
        signatures("template <typename T = int>\nT twice(T value) { return value; }"),
        ["template <typename T = int>\nT twice(T value)"]
    );
}

#[test]
fn nested_definitions_are_not_listed() {
    assert_eq!(
        signatures("void outer() { struct L { void inner() {} }; }"),
        ["void outer()"]
    );
}

#[test]
fn a_comment_line_stays_ended() {
    assert_eq!(signatures("int f() // note\n{}"), ["int f() // note\n"]);
}

#[test]
fn broken_and_oversized_sources_are_refused() {
    assert_eq!(
        analyze_cpp("void f( {").unwrap_err(),
        AnalysisError::InvalidSyntax
    );
    let large = " ".repeat(MAX_SOURCE_BYTES + 1);
    assert_eq!(
        analyze_cpp(&large).unwrap_err(),
        AnalysisError::InputTooLarge
    );
    assert!(analyze_cpp("").unwrap().is_empty());
    let deep = format!("int x = {}1{};", "(".repeat(400), ")".repeat(400));
    assert_eq!(
        analyze_cpp(&deep).unwrap_err(),
        AnalysisError::LimitExceeded
    );
    assert!(!AnalysisError::TimedOut.message().is_empty());
}

#[test]
fn visits_are_charged() {
    let mut remaining = 2;
    assert_eq!(charge(&mut remaining, MAX_DEPTH), Ok(()));
    assert_eq!(
        charge(&mut remaining, MAX_DEPTH + 1),
        Err(AnalysisError::LimitExceeded)
    );
    assert_eq!(remaining, 1);
    assert_eq!(charge(&mut remaining, 0), Ok(()));
    assert_eq!(
        charge(&mut remaining, 0),
        Err(AnalysisError::LimitExceeded)
    );
}

#[test]
fn headers_come_in_order_and_apart() {
    let source = "namespace n { int a() {} struct s { void b() {} }; }\n\
                  template <typename T> T c(T t) { struct u { void d() {} }; return t; }\n\
                  void e() {}";
    let found = analyze_cpp(source).unwrap();
    let names: Vec<&str> = found.iter().map(|one| one.signature.as_str()).collect();
    assert_eq!(
        names,
        ["int a()", "void b()", "template <typename T> T c(T t)", "void e()"]
    );
    for pair in found.windows(2) {
        assert!(pair[0].source_range.end <= pair[1].source_range.start);
    }
}

fn node(kind: &str, start: usize, end: usize, size: usize) -> SyntaxNode {
    SyntaxNode {
        kind: kind.to_string(),
        start,
        end,
        size,
        error: false,
    }
}

#[test]
fn a_tree_is_surveyed_by_its_nodes() {
    let source = "int f(int a=1) {}";
    let table = SyntaxTable {
        nodes: vec![
            node("translation_unit", 0, 17, 6),
            node("function_definition", 0, 17, 5),
            node("optional_parameter_declaration", 6, 13, 3),
            node("identifier", 10, 11, 1),
            node("=", 11, 12, 1),
            node("compound_statement", 15, 17, 1),
        ],
        fields: vec![
            Vec::new(),
            vec![("body".to_string(), 15)],
            Vec::new(),
            Vec::new(),
            Vec::new(),
            Vec::new(),
        ],
    };
    let found = survey_tree(&table, source).unwrap();
    assert_eq!(found.len(), 1);
    assert_eq!(found[0].signature, "int f(int a)");
    assert_eq!(found[0].source_range, 0..15);
    let mut bodiless = table;
    bodiless.fields[1].clear();
    assert_eq!(
        survey_tree(&bodiless, source).unwrap_err(),
        AnalysisError::UnsupportedDefinition
    );
}
