use relay_codegen::arguments::{build_alias, is_static_storage_key_available};
use relay_codegen::ast::{Ast, AstBuilder, AstKey, ObjectEntry, Primitive};
use relay_codegen::builder::{CodegenBuilder, CodegenVariant, DefinitionLocation, JsModuleFormat, ProjectConfig};
use relay_codegen::definitions::sort_entries_by_key;
use relay_codegen::definition_trees::TopLevelStatements;
use relay_codegen::ir::{Argument, ConstantArgument, ConstantValue, Value};
use relay_codegen::paths::{create_path_for_artifact, path_file_stem, relative_import_path, source_directory};
use relay_codegen::strings::{name_order_of, str_lt, usize_to_string};

fn object(entries: Vec<(&str, Primitive)>) -> Ast {
    Ast::Object(
        entries
            .into_iter()
            .map(|(k, v)| ObjectEntry { key: k.to_string(), value: v })
            .collect(),
    )
}

fn arg(name: &str, value: Value) -> Argument {
    Argument { name: name.to_string(), value }
}

#[test]
fn interning_the_same_node_twice_gives_the_same_key() {
    let mut b = AstBuilder::new();
    let k1 = b.intern(object(vec![("kind", Primitive::String("Literal".to_string()))]));
    let k2 = b.intern(object(vec![("kind", Primitive::String("Literal".to_string()))]));
    assert_eq!(k1, k2);
    assert_eq!(b.len(), 1);
}

#[test]
fn interning_different_nodes_appends() {
    let mut b = AstBuilder::new();
    let k1 = b.intern(Ast::Array(vec![Primitive::Int(1)]));
    let k2 = b.intern(Ast::Array(vec![Primitive::Int(2)]));
    let k3 = b.intern(Ast::Array(vec![Primitive::Key(k1), Primitive::Key(k2)]));
    assert_eq!((k1, k2, k3), (AstKey(0), AstKey(1), AstKey(2)));
    assert_eq!(b.len(), 3);
    match b.lookup(k3) {
        Ast::Array(ps) => assert_eq!(ps, &vec![Primitive::Key(k1), Primitive::Key(k2)]),
        _ => panic!("expected an array"),
    }
}

#[test]
fn storage_key_needs_arguments_without_variables() {
    let constant = vec![arg("first", Value::Constant(ConstantValue::Int(10)))];
    assert!(is_static_storage_key_available(&constant));
    let nested = vec![arg(
        "filter",
        Value::Object(vec![arg("ids", Value::List(vec![Value::Variable("id".to_string())]))]),
    )];
    assert!(!is_static_storage_key_available(&nested));
    assert!(is_static_storage_key_available(&vec![]));
}

#[test]
fn alias_equal_to_name_is_left_out() {
    let name = "friends".to_string();
    let same = build_alias(Some(&name), &name);
    assert_eq!(same.key, "alias");
    assert_eq!(same.value, Primitive::SkippableNull);
    let other = "buddies".to_string();
    let e = build_alias(Some(&other), &name);
    assert_eq!(e.value, Primitive::String("buddies".to_string()));
    assert_eq!(build_alias(None, &name).value, Primitive::SkippableNull);
}

#[test]
fn arguments_are_sorted_and_literal() {
    let config = ProjectConfig { js_module_format: JsModuleFormat::Haste, dynamic_module_provider: None };
    let location = DefinitionLocation { name: "Q".to_string(), source_path: "Q.js".to_string() };
    let mut b = CodegenBuilder::new(CodegenVariant::Normalization, AstBuilder::new(), &config, &location);
    let args = vec![
        arg("orderBy", Value::Constant(ConstantValue::Enum("NAME".to_string()))),
        arg("first", Value::Variable("count".to_string())),
    ];
    let k = b.build_arguments(&args).expect("two arguments");
    let ast = b.into_ast_builder();
    let items = match ast.lookup(k) {
        Ast::Array(ps) => ps.clone_keys(),
        _ => panic!("expected an array"),
    };
    let names: Vec<String> = items
        .iter()
        .map(|k| match ast.lookup(*k) {
            Ast::Object(es) => es
                .iter()
                .find(|e| e.key == "name")
                .map(|e| match &e.value {
                    Primitive::String(s) => s.clone(),
                    _ => String::new(),
                })
                .unwrap_or_default(),
            _ => String::new(),
        })
        .collect();
    assert_eq!(names, vec!["first", "orderBy"]);
}

trait CloneKeys {
    fn clone_keys(&self) -> Vec<AstKey>;
}

impl CloneKeys for Vec<Primitive> {
    fn clone_keys(&self) -> Vec<AstKey> {
        self.iter()
            .filter_map(|p| match p {
                Primitive::Key(k) => Some(*k),
                _ => None,
            })
            .collect()
    }
}

#[test]
fn constant_objects_sort_their_fields() {
    let config = ProjectConfig { js_module_format: JsModuleFormat::Haste, dynamic_module_provider: None };
    let location = DefinitionLocation { name: "Q".to_string(), source_path: "Q.js".to_string() };
    let mut b = CodegenBuilder::new(CodegenVariant::Normalization, AstBuilder::new(), &config, &location);
    let value = ConstantValue::Object(vec![
        ConstantArgument { name: "z".to_string(), value: ConstantValue::Int(1) },
        ConstantArgument { name: "a".to_string(), value: ConstantValue::Null },
    ]);
    let p = b.build_constant_value(&value);
    let ast = b.into_ast_builder();
    match p {
        Primitive::Key(k) => match ast.lookup(k) {
            Ast::Object(es) => {
                let keys: Vec<&str> = es.iter().map(|e| e.key.as_str()).collect();
                assert_eq!(keys, vec!["a", "z"]);
                assert_eq!(es[0].value, Primitive::Null);
                assert_eq!(es[1].value, Primitive::Int(1));
            }
            _ => panic!("expected an object"),
        },
        _ => panic!("expected a key"),
    }
}

#[test]
fn entries_sort_stably_by_key() {
    let entries = vec![
        ObjectEntry { key: "b".to_string(), value: Primitive::Int(1) },
        ObjectEntry { key: "a".to_string(), value: Primitive::Int(2) },
        ObjectEntry { key: "b".to_string(), value: Primitive::Int(3) },
        ObjectEntry { key: "ab".to_string(), value: Primitive::Int(4) },
    ];
    let sorted = sort_entries_by_key(entries);
    let pairs: Vec<(String, Primitive)> = sorted.into_iter().map(|e| (e.key, e.value)).collect();
    assert_eq!(
        pairs,
        vec![
            ("a".to_string(), Primitive::Int(2)),
            ("ab".to_string(), Primitive::Int(4)),
            ("b".to_string(), Primitive::Int(1)),
            ("b".to_string(), Primitive::Int(3)),
        ]
    );
}

#[test]
fn name_order_is_stable() {
    let names: Vec<String> = vec!["b", "a", "b", "A"].into_iter().map(String::from).collect();
    assert_eq!(name_order_of(&names), vec![3, 1, 0, 2]);
}

#[test]
fn string_order_is_by_code_point() {
    assert!(str_lt("a", "b"));
    assert!(str_lt("B", "a"));
    assert!(str_lt("ab", "abc"));
    assert!(!str_lt("abc", "abc"));
    assert!(!str_lt("b", "ab"));
}

#[test]
fn decimal_rendering() {
    assert_eq!(usize_to_string(0), "0");
    assert_eq!(usize_to_string(1207), "1207");
}

#[test]
fn artifact_paths() {
    assert_eq!(source_directory("src/components/App.js"), "src/components/");
    assert_eq!(source_directory("App.js"), "");
    assert_eq!(
        create_path_for_artifact("src/components/App.js", "AppQuery.graphql"),
        "src/components/__generated__/AppQuery.graphql"
    );
    assert_eq!(path_file_stem("src/resolvers/UserName.js"), "UserName");
    assert_eq!(relative_import_path("src/a/__generated__/", "src/a/Resolver.js"), "./../Resolver.js");
    assert_eq!(relative_import_path("src/__generated__/", "lib/x.js"), "./../../lib/x.js");
}

#[test]
fn top_level_statements_lookup() {
    let t = TopLevelStatements { names: vec!["a".to_string(), "providedVariablesDefinition".to_string()] };
    assert!(t.contains("providedVariablesDefinition"));
    assert!(!t.contains("b"));
}
