use relay_codegen::ast::{Ast, AstBuilder, AstKey, DynamicModuleProvider, Primitive};
use relay_codegen::builder::{CodegenBuilder, CodegenVariant, ContextualMetadata, DefinitionLocation, JsModuleFormat, ProjectConfig};
use relay_codegen::codegen::{
    build_fragment, build_operation, build_provided_variables, build_request,
    build_request_params, build_request_params_ast_key,
};
use relay_codegen::definition_trees::{QueryID, RequestParameters, TopLevelStatements};
use relay_codegen::hashing::md5;
use relay_codegen::ir::{
    InlineFragment, AbstractTypeInfo, Argument, ConnectionMetadata, ConstantValue, Directive, DirectiveKind,
    FragmentDefinition, LinkedField, OperationDefinition, OperationKind, ProvidedVariableMetadata,
    RefetchableMetadata, RelayDirective, ScalarField, SchemaField, SchemaType, Selection, Value,
    VariableDefinition,
};

fn render(b: &AstBuilder, p: &Primitive) -> String {
    match p {
        Primitive::Key(k) => render_key(b, *k),
        Primitive::Variable(v) => format!("${}", v),
        Primitive::String(s) => format!("{:?}", s),
        Primitive::RawString(s) => format!("raw({})", s),
        Primitive::GraphQLModuleDependency(s) => format!("graphql({})", s),
        Primitive::JSModuleDependency(d) => format!("require({})", d.path),
        Primitive::Bool(v) => v.to_string(),
        Primitive::Int(v) => v.to_string(),
        Primitive::Null => "null".to_string(),
        Primitive::SkippableNull => "~".to_string(),
        Primitive::StorageKey(n, k) => format!("storageKey({},{})", n, render_key(b, *k)),
        _ => "?".to_string(),
    }
}

fn render_key(b: &AstBuilder, k: AstKey) -> String {
    match b.lookup(k) {
        Ast::Object(es) => {
            let parts: Vec<String> =
                es.iter().map(|e| format!("{}:{}", e.key, render(b, &e.value))).collect();
            format!("{{{}}}", parts.join(","))
        }
        Ast::Array(ps) => {
            let parts: Vec<String> = ps.iter().map(|p| render(b, p)).collect();
            format!("[{}]", parts.join(","))
        }
    }
}

fn field_def(name: &str, ty: &str, is_list: bool) -> SchemaField {
    SchemaField {
        name: name.to_string(),
        inner_type: ty.to_string(),
        type_is_abstract: false,
        is_list,
    }
}

fn scalar(name: &str) -> Selection {
    Selection::ScalarField(ScalarField {
        alias: None,
        definition: field_def(name, "String", false),
        arguments: vec![],
        directives: vec![],
    })
}

fn linked(name: &str, ty: &str, selections: Vec<Selection>) -> Selection {
    Selection::LinkedField(LinkedField {
        alias: None,
        definition: field_def(name, ty, false),
        arguments: vec![],
        directives: vec![],
        selections,
    })
}

fn directive(kind: DirectiveKind) -> Directive {
    Directive { kind, arguments: vec![] }
}

fn location() -> DefinitionLocation {
    DefinitionLocation {
        name: "AppQuery".to_string(),
        source_path: "src/components/App.js".to_string(),
    }
}

fn config(format: JsModuleFormat) -> ProjectConfig {
    ProjectConfig { js_module_format: format, dynamic_module_provider: None }
}

fn operation(name: &str, directives: Vec<Directive>, selections: Vec<Selection>) -> OperationDefinition {
    OperationDefinition {
        kind: OperationKind::Query,
        name: name.to_string(),
        source_path: "src/components/App.js".to_string(),
        variable_definitions: vec![],
        directives,
        selections,
    }
}

fn fragment(name: &str, directives: Vec<Directive>, selections: Vec<Selection>) -> FragmentDefinition {
    FragmentDefinition {
        name: name.to_string(),
        variable_definitions: vec![],
        used_global_variables: vec![],
        type_condition: SchemaType { name: "User".to_string(), is_abstract: false },
        directives,
        selections,
    }
}

fn variable(name: &str, default_value: Option<ConstantValue>) -> VariableDefinition {
    VariableDefinition { name: name.to_string(), default_value, directives: vec![] }
}

fn request_parameters(name: &str, id: Option<QueryID>, text: Option<&str>) -> RequestParameters {
    RequestParameters {
        name: name.to_string(),
        operation_kind: OperationKind::Query,
        id,
        text: text.map(|t| t.to_string()),
    }
}

fn connection(direction: &str) -> ConnectionMetadata {
    ConnectionMetadata {
        path: Some(vec!["viewer".to_string(), "friends".to_string()]),
        direction: direction.to_string(),
        first: Some("first".to_string()),
        last: Some("last".to_string()),
        before: Some("before".to_string()),
        after: Some("after".to_string()),
        is_stream_connection: false,
    }
}

#[test]
fn operation_with_linked_and_scalar_fields() {
    let mut b = AstBuilder::new();
    let op = operation("AppQuery", vec![], vec![linked("viewer", "Viewer", vec![scalar("id")])]);
    let k = build_operation(&mut b, &op, &location(), &config(JsModuleFormat::Haste));
    assert_eq!(
        render_key(&b, k),
        "{argumentDefinitions:[],kind:\"Operation\",name:\"AppQuery\",selections:[\
{alias:~,args:~,concreteType:\"Viewer\",kind:\"LinkedField\",name:\"viewer\",plural:false,selections:[\
{alias:~,args:~,kind:\"ScalarField\",name:\"id\",storageKey:~}],storageKey:~}]}"
    );
}

#[test]
fn operation_variables_keep_declaration_order() {
    let mut b = AstBuilder::new();
    let mut op = operation("AppQuery", vec![], vec![scalar("id")]);
    op.variable_definitions = vec![variable("first", Some(ConstantValue::Int(10))), variable("after", None)];
    let k = build_operation(&mut b, &op, &location(), &config(JsModuleFormat::Haste));
    assert_eq!(
        render_key(&b, k),
        "{argumentDefinitions:[{defaultValue:10,kind:\"LocalArgument\",name:\"first\"},\
{defaultValue:null,kind:\"LocalArgument\",name:\"after\"}],kind:\"Operation\",name:\"AppQuery\",selections:[\
{alias:~,args:~,kind:\"ScalarField\",name:\"id\",storageKey:~}]}"
    );
}

#[test]
fn split_operation_without_variables() {
    let mut b = AstBuilder::new();
    let op = operation("Split", vec![directive(DirectiveKind::SplitOperation)], vec![scalar("id")]);
    let k = build_operation(&mut b, &op, &location(), &config(JsModuleFormat::Haste));
    assert_eq!(
        render_key(&b, k),
        "{kind:\"SplitOperation\",metadata:{},name:\"Split\",selections:[\
{alias:~,args:~,kind:\"ScalarField\",name:\"id\",storageKey:~}]}"
    );
}

#[test]
fn split_operation_with_variables_puts_definitions_first() {
    let mut b = AstBuilder::new();
    let mut op = operation("Split", vec![directive(DirectiveKind::SplitOperation)], vec![]);
    op.variable_definitions = vec![variable("id", None)];
    let k = build_operation(&mut b, &op, &location(), &config(JsModuleFormat::Haste));
    assert_eq!(
        render_key(&b, k),
        "{argumentDefinitions:[{defaultValue:null,kind:\"LocalArgument\",name:\"id\"}],\
kind:\"SplitOperation\",metadata:{},name:\"Split\",selections:[]}"
    );
}

#[test]
fn operation_with_client_abstract_types() {
    let mut b = AstBuilder::new();
    let types = vec![AbstractTypeInfo {
        name: "Animal".to_string(),
        concrete: vec!["Cat".to_string(), "Dog".to_string()],
    }];
    let op = operation("Pets", vec![directive(DirectiveKind::ClientAbstractTypes(types))], vec![]);
    let k = build_operation(&mut b, &op, &location(), &config(JsModuleFormat::Haste));
    assert_eq!(
        render_key(&b, k),
        "{argumentDefinitions:[],kind:\"Operation\",name:\"Pets\",selections:[],\
clientAbstractTypes:{Animal:[\"Cat\",\"Dog\"]}}"
    );
}

#[test]
fn fragment_without_metadata() {
    let mut b = AstBuilder::new();
    let f = fragment("User_user", vec![], vec![scalar("name")]);
    let k = build_fragment(&mut b, &f, &location(), &config(JsModuleFormat::Haste));
    assert_eq!(
        render_key(&b, k),
        "{argumentDefinitions:[],kind:\"Fragment\",metadata:~,name:\"User_user\",selections:[\
{alias:~,args:~,kind:\"ScalarField\",name:\"name\",storageKey:~}],type:\"User\",abstractKey:~}"
    );
}

#[test]
fn plural_unmasked_fragment_metadata() {
    let mut b = AstBuilder::new();
    let f = fragment(
        "Users",
        vec![directive(DirectiveKind::Relay(RelayDirective { plural: true, unmask: true }))],
        vec![],
    );
    let k = build_fragment(&mut b, &f, &location(), &config(JsModuleFormat::Haste));
    assert_eq!(
        render_key(&b, k),
        "{argumentDefinitions:[],kind:\"Fragment\",metadata:{mask:false,plural:true},name:\"Users\",\
selections:[],type:\"User\",abstractKey:~}"
    );
}

#[test]
fn fragment_on_abstract_type_has_abstract_key() {
    let mut b = AstBuilder::new();
    let mut f = fragment("Node_node", vec![], vec![]);
    f.type_condition = SchemaType { name: "Node".to_string(), is_abstract: true };
    let k = build_fragment(&mut b, &f, &location(), &config(JsModuleFormat::Haste));
    assert!(render_key(&b, k).ends_with("type:\"Node\",abstractKey:\"__isNode\"}"));
}

#[test]
fn inline_data_fragment() {
    let mut b = AstBuilder::new();
    let f = fragment("Inline_user", vec![directive(DirectiveKind::Inline)], vec![scalar("id")]);
    let k = build_fragment(&mut b, &f, &location(), &config(JsModuleFormat::Haste));
    assert_eq!(render_key(&b, k), "{kind:\"InlineDataFragment\",name:\"Inline_user\"}");
}

#[test]
fn fragment_argument_definitions_are_sorted_by_name() {
    let mut b = AstBuilder::new();
    let mut f = fragment("Sorted", vec![], vec![]);
    f.variable_definitions = vec![variable("zeta", None), variable("alpha", None)];
    f.used_global_variables = vec![variable("beta", None)];
    let k = build_fragment(&mut b, &f, &location(), &config(JsModuleFormat::Haste));
    assert!(render_key(&b, k).starts_with(
        "{argumentDefinitions:[{defaultValue:null,kind:\"LocalArgument\",name:\"alpha\"},\
{kind:\"RootArgument\",name:\"beta\"},{defaultValue:null,kind:\"LocalArgument\",name:\"zeta\"}]"
    ));
}

#[test]
fn refetchable_fragment_with_connection() {
    let mut b = AstBuilder::new();
    let f = fragment(
        "Friends",
        vec![
            directive(DirectiveKind::Connection(vec![connection("forward")])),
            directive(DirectiveKind::Refetchable(RefetchableMetadata {
                operation_name: "FriendsRefetchQuery".to_string(),
                path: vec!["node".to_string()],
                identifier_field: Some("id".to_string()),
            })),
        ],
        vec![],
    );
    let k = build_fragment(&mut b, &f, &location(), &config(JsModuleFormat::Haste));
    assert_eq!(
        render_key(&b, k),
        "{argumentDefinitions:[],kind:\"Fragment\",metadata:{\
connection:[{count:\"first\",cursor:\"after\",direction:\"forward\",path:[\"viewer\",\"friends\"]}],\
refetch:{connection:{forward:{count:\"first\",cursor:\"after\"},backward:{count:\"last\",cursor:\"before\"},\
path:[\"viewer\",\"friends\"]},fragmentPathInResult:[\"node\"],operation:graphql(FriendsRefetchQuery),\
identifierField:\"id\"}},name:\"Friends\",selections:[],type:\"User\",abstractKey:~}"
    );
}

#[test]
fn connection_count_and_cursor_follow_direction() {
    let config = config(JsModuleFormat::Haste);
    let location = location();
    let mut b = CodegenBuilder::new(CodegenVariant::Reader, AstBuilder::new(), &config, &location);
    let mut stream = connection("backward");
    stream.is_stream_connection = true;
    let e = b.build_connection_metadata(&vec![connection("forward"), stream, connection("sideways")]);
    assert_eq!(e.key, "connection");
    let value = e.value;
    let ast = b.into_ast_builder();
    assert_eq!(
        render(&ast, &value),
        "[{count:\"first\",cursor:\"after\",direction:\"forward\",path:[\"viewer\",\"friends\"]},\
{count:\"last\",cursor:\"before\",direction:\"backward\",path:[\"viewer\",\"friends\"],stream:true},\
{count:null,cursor:null,direction:\"sideways\",path:[\"viewer\",\"friends\"]}]"
    );
}

#[test]
fn fragment_metadata_records_client_edges() {
    let config = config(JsModuleFormat::Haste);
    let location = location();
    let mut b = CodegenBuilder::new(CodegenVariant::Reader, AstBuilder::new(), &config, &location);
    let f = fragment("Edges", vec![], vec![]);
    let p = b.build_fragment_metadata(ContextualMetadata { has_client_edges: true }, &f);
    let ast = b.into_ast_builder();
    assert_eq!(render(&ast, &p), "{hasClientEdges:true}");
}

#[test]
fn request_parameters_with_text_hash_the_text() {
    let mut b = AstBuilder::new();
    let op = operation("AppQuery", vec![], vec![]);
    let text = "query AppQuery { viewer { id } }";
    let k = build_request_params_ast_key(
        request_parameters("AppQuery", None, Some(text)),
        &mut b,
        &op,
        &TopLevelStatements { names: vec![] },
        &location(),
        &config(JsModuleFormat::Haste),
    );
    assert_eq!(
        render_key(&b, k),
        format!(
            "{{cacheID:raw({}),id:null,metadata:{{}},name:\"AppQuery\",operationKind:\"query\",text:raw({})}}",
            md5(text),
            text
        )
    );
}

#[test]
fn request_parameters_with_persisted_id_have_no_cache_id() {
    let mut b = AstBuilder::new();
    let op = operation("AppQuery", vec![], vec![]);
    let id = QueryID::Persisted { id: "1234".to_string(), text_hash: "abcd".to_string() };
    let k = build_request_params_ast_key(
        request_parameters("AppQuery", Some(id), None),
        &mut b,
        &op,
        &TopLevelStatements { names: vec![] },
        &location(),
        &config(JsModuleFormat::Haste),
    );
    assert_eq!(
        render_key(&b, k),
        "{id:raw(1234),metadata:{},name:\"AppQuery\",operationKind:\"query\",text:null}"
    );
}

#[test]
fn request_parameters_with_external_id() {
    let mut b = AstBuilder::new();
    let op = operation("AppQuery", vec![], vec![]);
    let id = QueryID::External("AppQuery$id".to_string());
    let k = build_request_params_ast_key(
        request_parameters("AppQuery", Some(id), None),
        &mut b,
        &op,
        &TopLevelStatements { names: vec![] },
        &location(),
        &config(JsModuleFormat::Haste),
    );
    assert!(render_key(&b, k).starts_with("{id:require(AppQuery$id),"));
}

#[test]
fn request_parameters_without_text_or_id_hash_the_name() {
    let mut b = AstBuilder::new();
    let op = operation("AppQuery", vec![], vec![]);
    let k = build_request_params_ast_key(
        request_parameters("AppQuery", None, None),
        &mut b,
        &op,
        &TopLevelStatements { names: vec![] },
        &location(),
        &config(JsModuleFormat::Haste),
    );
    assert_eq!(
        render_key(&b, k),
        format!(
            "{{cacheID:raw({}),id:null,metadata:{{}},name:\"AppQuery\",operationKind:\"query\",text:null}}",
            md5("AppQuery")
        )
    );
}

#[test]
fn request_metadata_is_sorted_by_key() {
    let mut b = AstBuilder::new();
    let metadata = |key: &str, value: ConstantValue| Directive {
        kind: DirectiveKind::InternalMetadata,
        arguments: vec![Argument { name: key.to_string(), value: Value::Constant(value) }],
    };
    let op = operation(
        "AppQuery",
        vec![
            metadata("relayTestingSelectionTypeInfo", ConstantValue::Boolean(true)),
            directive(DirectiveKind::Connection(vec![connection("forward")])),
            metadata("alpha", ConstantValue::String("a".to_string())),
        ],
        vec![],
    );
    let k = build_request_params_ast_key(
        request_parameters("AppQuery", Some(QueryID::External("m".to_string())), None),
        &mut b,
        &op,
        &TopLevelStatements { names: vec![] },
        &location(),
        &config(JsModuleFormat::Haste),
    );
    assert_eq!(
        render_key(&b, k),
        "{id:require(m),metadata:{alpha:\"a\",connection:[{count:\"first\",cursor:\"after\",\
direction:\"forward\",path:[\"viewer\",\"friends\"]}],relayTestingSelectionTypeInfo:true},\
name:\"AppQuery\",operationKind:\"query\",text:null}"
    );
}

fn provided(name: &str, module: &str, path: &str) -> VariableDefinition {
    VariableDefinition {
        name: name.to_string(),
        default_value: None,
        directives: vec![directive(DirectiveKind::ProvidedVariable(ProvidedVariableMetadata {
            module_name: module.to_string(),
            provider_path: path.to_string(),
        }))],
    }
}

#[test]
fn provided_variables_with_haste_use_module_names() {
    let mut b = AstBuilder::new();
    let mut op = operation("AppQuery", vec![], vec![]);
    op.variable_definitions = vec![
        variable("plain", None),
        provided("__relay_internal__pv__Flag", "FlagProvider", "src/providers/FlagProvider.js"),
    ];
    let r = build_provided_variables(&mut b, &op, &location(), &config(JsModuleFormat::Haste));
    let k = r.expect("the operation has a provided variable");
    assert_eq!(render_key(&b, k), "{__relay_internal__pv__Flag:require(FlagProvider)}");
}

#[test]
fn provided_variables_with_commonjs_use_relative_paths() {
    let mut b = AstBuilder::new();
    let mut op = operation("AppQuery", vec![], vec![]);
    op.variable_definitions =
        vec![provided("__relay_internal__pv__Flag", "FlagProvider", "src/providers/FlagProvider.js")];
    let r = build_provided_variables(&mut b, &op, &location(), &config(JsModuleFormat::CommonJS));
    let k = r.expect("the operation has a provided variable");
    assert_eq!(
        render_key(&b, k),
        "{__relay_internal__pv__Flag:require(./../../providers/FlagProvider.js)}"
    );
}

#[test]
fn no_provided_variables() {
    let mut b = AstBuilder::new();
    let mut op = operation("AppQuery", vec![], vec![]);
    op.variable_definitions = vec![variable("plain", None)];
    let r = build_provided_variables(&mut b, &op, &location(), &config(JsModuleFormat::Haste));
    assert!(r.is_none());
    assert_eq!(b.len(), 0);
}

#[test]
fn declared_provided_variables_statement_is_referenced() {
    let mut b = AstBuilder::new();
    let mut op = operation("AppQuery", vec![], vec![]);
    op.variable_definitions =
        vec![provided("__relay_internal__pv__Flag", "FlagProvider", "src/providers/FlagProvider.js")];
    let k = build_request_params_ast_key(
        request_parameters("AppQuery", Some(QueryID::External("m".to_string())), None),
        &mut b,
        &op,
        &TopLevelStatements { names: vec!["providedVariablesDefinition".to_string()] },
        &location(),
        &config(JsModuleFormat::Haste),
    );
    assert!(render_key(&b, k).ends_with("text:null,providedVariables:$providedVariablesDefinition}"));
}

#[test]
fn provided_variables_are_built_when_not_declared() {
    let mut b = AstBuilder::new();
    let mut op = operation("AppQuery", vec![], vec![]);
    op.variable_definitions =
        vec![provided("__relay_internal__pv__Flag", "FlagProvider", "src/providers/FlagProvider.js")];
    let k = build_request_params_ast_key(
        request_parameters("AppQuery", Some(QueryID::External("m".to_string())), None),
        &mut b,
        &op,
        &TopLevelStatements { names: vec!["other".to_string()] },
        &location(),
        &config(JsModuleFormat::Haste),
    );
    assert!(render_key(&b, k)
        .ends_with("text:null,providedVariables:{__relay_internal__pv__Flag:require(FlagProvider)}}"));
}

#[test]
fn request_combines_fragment_operation_and_params() {
    let mut b = AstBuilder::new();
    let op = operation("AppQuery", vec![], vec![scalar("id")]);
    let f = fragment("AppQuery", vec![], vec![scalar("id")]);
    let params = build_request_params_ast_key(
        build_request_params(&op),
        &mut b,
        &op,
        &TopLevelStatements { names: vec![] },
        &location(),
        &config(JsModuleFormat::Haste),
    );
    let k = build_request(&mut b, &op, &f, params, &location(), &config(JsModuleFormat::Haste));
    let text = render_key(&b, k);
    assert!(text.starts_with(
        "{fragment:{argumentDefinitions:[],kind:\"Fragment\",metadata:~,name:\"AppQuery\","
    ));
    assert!(text.contains(",kind:\"Request\",operation:{argumentDefinitions:[],kind:\"Operation\","));
    assert!(text.ends_with(&format!(
        "params:{{cacheID:raw({}),id:null,metadata:{{}},name:\"AppQuery\",operationKind:\"query\",text:null}}}}",
        md5("AppQuery")
    )));
}

#[test]
fn request_params_copy_name_and_kind() {
    let mut op = operation("Mutate", vec![], vec![]);
    op.kind = OperationKind::Mutation;
    let p = build_request_params(&op);
    assert_eq!(p.name, "Mutate");
    assert!(matches!(p.operation_kind, OperationKind::Mutation));
    assert!(p.id.is_none());
    assert!(p.text.is_none());
}

#[test]
fn building_twice_interns_once() {
    let mut b = AstBuilder::new();
    let op = operation("AppQuery", vec![], vec![scalar("id")]);
    let k1 = build_operation(&mut b, &op, &location(), &config(JsModuleFormat::Haste));
    let n = b.len();
    let k2 = build_operation(&mut b, &op, &location(), &config(JsModuleFormat::Haste));
    assert_eq!(k1, k2);
    assert_eq!(b.len(), n);
}

#[test]
fn dynamic_module_provider_is_kept_in_config() {
    let c = ProjectConfig {
        js_module_format: JsModuleFormat::CommonJS,
        dynamic_module_provider: Some(DynamicModuleProvider::Custom { pattern: "<$module>".to_string() }),
    };
    assert_eq!(c.js_module_import_path("src/a/App.js", "src/b/Provider.js"), "./../../b/Provider.js");
}

fn discriminator(key: &str) -> Selection {
    Selection::ScalarField(ScalarField {
        alias: Some(key.to_string()),
        definition: field_def("__typename", "String", false),
        arguments: vec![],
        directives: vec![directive(DirectiveKind::TypeDiscriminator)],
    })
}

fn abstract_inline(selections: Vec<Selection>) -> Selection {
    Selection::InlineFragment(InlineFragment {
        type_condition: Some(SchemaType { name: "Node".to_string(), is_abstract: true }),
        directives: vec![],
        selections,
    })
}

fn normalization_selections(selections: Vec<Selection>) -> String {
    let mut b = AstBuilder::new();
    let op = operation("Q", vec![], selections);
    let k = build_operation(&mut b, &op, &location(), &config(JsModuleFormat::Haste));
    let text = render_key(&b, k);
    let start = text.find("selections:").unwrap() + "selections:".len();
    text[start..text.len() - 1].to_string()
}

#[test]
fn lone_discriminator_with_the_fragment_key_replaces_the_fragment() {
    assert_eq!(
        normalization_selections(vec![abstract_inline(vec![discriminator("__isNode")])]),
        "[{kind:\"TypeDiscriminator\",abstractKey:\"__isNode\"}]"
    );
}

#[test]
fn lone_discriminator_with_another_key_stays_in_the_fragment() {
    assert_eq!(
        normalization_selections(vec![abstract_inline(vec![discriminator("__isActor")])]),
        "[{kind:\"InlineFragment\",selections:[{kind:\"TypeDiscriminator\",abstractKey:\"__isActor\"}],\
type:\"Node\",abstractKey:\"__isNode\"}]"
    );
}

#[test]
fn only_discriminators_with_the_fragment_key_are_dropped() {
    assert_eq!(
        normalization_selections(vec![abstract_inline(vec![
            discriminator("__isNode"),
            discriminator("__isActor"),
            scalar("id"),
        ])]),
        "[{kind:\"InlineFragment\",selections:[{kind:\"TypeDiscriminator\",abstractKey:\"__isActor\"},\
{alias:~,args:~,kind:\"ScalarField\",name:\"id\",storageKey:~}],type:\"Node\",abstractKey:\"__isNode\"}]"
    );
}
