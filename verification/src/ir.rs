//! The GraphQL intermediate representation that code generation reads, after
//! the compiler's transforms have attached their metadata to directives and
//! resolved schema references to plain values.
use vstd::prelude::*;

verus! {

/// A named schema type, with whether it is an interface or union.
#[derive(Debug, PartialEq)]
pub struct SchemaType {
    pub name: String,
    pub is_abstract: bool,
}

/// The schema field a selection refers to.
#[derive(Debug, PartialEq)]
pub struct SchemaField {
    pub name: String,
    /// The name of the field's innermost type.
    pub inner_type: String,
    pub type_is_abstract: bool,
    /// Whether the field's type is a list.
    pub is_list: bool,
}

/// A literal value.
#[derive(Debug, PartialEq)]
pub enum ConstantValue {
    Int(i64),
    /// The bits of an IEEE double.
    Float(u64),
    String(String),
    Boolean(bool),
    Null,
    Enum(String),
    List(Vec<ConstantValue>),
    Object(Vec<ConstantArgument>),
}

/// A field of a literal object.
#[derive(Debug, PartialEq)]
pub struct ConstantArgument {
    pub name: String,
    pub value: ConstantValue,
}

/// An argument value: a literal, a variable, or a list or object of values.
#[derive(Debug, PartialEq)]
pub enum Value {
    Constant(ConstantValue),
    /// A reference to the variable of that name.
    Variable(String),
    List(Vec<Value>),
    Object(Vec<Argument>),
}

/// A named argument.
#[derive(Debug, PartialEq)]
pub struct Argument {
    pub name: String,
    pub value: Value,
}

/// A variable that an operation or fragment declares.
#[derive(Debug, PartialEq)]
pub struct VariableDefinition {
    pub name: String,
    pub default_value: Option<ConstantValue>,
    pub directives: Vec<Directive>,
}

/// `@relay(plural:, mask:)` on a fragment.
#[derive(Debug, PartialEq)]
pub struct RelayDirective {
    pub plural: bool,
    pub unmask: bool,
}

/// What the connection transform records for one `@connection`.
#[derive(Debug, PartialEq)]
pub struct ConnectionMetadata {
    pub path: Option<Vec<String>>,
    pub direction: String,
    pub first: Option<String>,
    pub last: Option<String>,
    pub before: Option<String>,
    pub after: Option<String>,
    pub is_stream_connection: bool,
}

/// What the refetchable transform records on a fragment.
#[derive(Debug, PartialEq)]
pub struct RefetchableMetadata {
    pub operation_name: String,
    pub path: Vec<String>,
    pub identifier_field: Option<String>,
}

/// A client-schema abstract type and the concrete types that implement it.
#[derive(Debug, PartialEq)]
pub struct AbstractTypeInfo {
    pub name: String,
    pub concrete: Vec<String>,
}

/// What `@inline` fragment data records on the inline fragment that replaces a spread.
#[derive(Debug, PartialEq)]
pub struct InlineDirectiveMetadata {
    pub fragment_name: String,
    pub arguments: Vec<Argument>,
    pub variable_definitions: Vec<VariableDefinition>,
    pub used_global_variables: Vec<VariableDefinition>,
}

/// What `@module` records.
#[derive(Debug, PartialEq)]
pub struct ModuleMetadata {
    pub key: String,
    pub module_name: String,
    pub fragment_name: String,
}

/// How a resolver receives the data of its root fragment.
#[derive(Debug, PartialEq)]
pub struct FragmentDataInjection {
    pub fragment_name: String,
    /// The source file of the fragment.
    pub fragment_source_path: String,
    pub field_name: String,
    pub is_required: bool,
}

/// Normalization data of a resolver that returns a server-like object.
#[derive(Debug, PartialEq)]
pub struct ResolverNormalizationInfo {
    pub concrete_type: String,
    pub plural: bool,
    pub normalization_operation: String,
    /// The source file of the normalization operation.
    pub normalization_source_path: String,
    pub weak_object_instance_field: Option<String>,
}

/// What a resolver returns.
#[derive(Debug, PartialEq)]
pub enum ResolverOutputTypeInfo {
    ScalarField,
    Composite(ResolverNormalizationInfo),
}

/// What the resolver transform records on a resolver field.
#[derive(Debug, PartialEq)]
pub struct RelayResolverMetadata {
    pub field_name: String,
    pub field_alias: Option<String>,
    pub field_path: String,
    pub field_arguments: Vec<Argument>,
    pub import_path: String,
    pub import_name: Option<String>,
    /// The local name the resolver's import is bound to.
    pub local_resolver_name: String,
    pub live: bool,
    pub fragment_data_injection: Option<FragmentDataInjection>,
    pub output_type_info: Option<ResolverOutputTypeInfo>,
}

/// The action of `@required`.
#[derive(Debug, PartialEq)]
pub enum RequiredAction {
    Nothing,
    Log,
    Throw,
}

/// What `@required` records.
#[derive(Debug, PartialEq)]
pub struct RequiredMetadata {
    pub action: RequiredAction,
    pub path: String,
}

/// What `@alias` records.
#[derive(Debug, PartialEq)]
pub struct FragmentAliasMetadata {
    pub alias: String,
    pub type_condition: Option<SchemaType>,
}

/// What `@no_inline` records on a fragment spread.
#[derive(Debug, PartialEq)]
pub struct NoInlineMetadata {
    /// The source file of the spread fragment.
    pub source_path: String,
}

/// The values of one `__clientField` handle directive.
#[derive(Debug, PartialEq)]
pub struct HandleFieldDirective {
    pub handle: String,
    pub key: String,
    pub filters: Option<Vec<String>>,
    pub dynamic_key: Option<Value>,
    pub handle_args: Option<Vec<Argument>>,
}

/// What `@relay_test_operation`-style provided variables record.
#[derive(Debug, PartialEq)]
pub struct ProvidedVariableMetadata {
    pub module_name: String,
    /// The path of the provider module.
    pub provider_path: String,
}

/// Where a client edge leads.
#[derive(Debug, PartialEq)]
pub enum ClientEdgeMetadataDirective {
    ServerObject { query_name: String },
    ClientObject { concrete_type: String },
}

/// What a directive is, with the metadata that transforms attached to it.
#[derive(Debug, PartialEq)]
pub enum DirectiveKind {
    /// A directive that code generation does not interpret.
    Other(String),
    SplitOperation,
    TypeDiscriminator,
    ClientExtension,
    ActorChange,
    /// `@inline` on a fragment definition.
    Inline,
    ReactFlight,
    ClientComponentServer,
    Defer,
    Stream,
    /// `@__metadata`.
    InternalMetadata,
    Relay(RelayDirective),
    Connection(Vec<ConnectionMetadata>),
    Refetchable(RefetchableMetadata),
    ClientAbstractTypes(Vec<AbstractTypeInfo>),
    InlineData(InlineDirectiveMetadata),
    Module(ModuleMetadata),
    Resolver(RelayResolverMetadata),
    Required(RequiredMetadata),
    FragmentAlias(FragmentAliasMetadata),
    NoInline(NoInlineMetadata),
    Handle(HandleFieldDirective),
    ProvidedVariable(ProvidedVariableMetadata),
    ClientEdge(ClientEdgeMetadataDirective),
}

/// A directive with its arguments.
#[derive(Debug, PartialEq)]
pub struct Directive {
    pub kind: DirectiveKind,
    pub arguments: Vec<Argument>,
}

#[derive(Debug, PartialEq)]
pub struct FragmentSpread {
    pub fragment: String,
    pub arguments: Vec<Argument>,
    pub directives: Vec<Directive>,
}

#[derive(Debug, PartialEq)]
pub struct InlineFragment {
    pub type_condition: Option<SchemaType>,
    pub directives: Vec<Directive>,
    pub selections: Vec<Selection>,
}

#[derive(Debug, PartialEq)]
pub struct LinkedField {
    pub alias: Option<String>,
    pub definition: SchemaField,
    pub arguments: Vec<Argument>,
    pub directives: Vec<Directive>,
    pub selections: Vec<Selection>,
}

#[derive(Debug, PartialEq)]
pub struct ScalarField {
    pub alias: Option<String>,
    pub definition: SchemaField,
    pub arguments: Vec<Argument>,
    pub directives: Vec<Directive>,
}

/// The value that a condition tests.
#[derive(Debug, PartialEq)]
pub enum ConditionValue {
    Constant(bool),
    Variable(String),
}

/// `@include`/`@skip` around selections.
#[derive(Debug, PartialEq)]
pub struct Condition {
    pub selections: Vec<Selection>,
    pub value: ConditionValue,
    pub passing_value: bool,
}

#[derive(Debug, PartialEq)]
pub enum Selection {
    FragmentSpread(FragmentSpread),
    InlineFragment(InlineFragment),
    LinkedField(LinkedField),
    ScalarField(ScalarField),
    Condition(Condition),
}

#[derive(Debug, PartialEq, Clone, Copy)]
pub enum OperationKind {
    Query,
    Mutation,
    Subscription,
}

#[derive(Debug, PartialEq)]
pub struct OperationDefinition {
    pub kind: OperationKind,
    pub name: String,
    /// The source file of the operation.
    pub source_path: String,
    pub variable_definitions: Vec<VariableDefinition>,
    pub directives: Vec<Directive>,
    pub selections: Vec<Selection>,
}

#[derive(Debug, PartialEq)]
pub struct FragmentDefinition {
    pub name: String,
    pub variable_definitions: Vec<VariableDefinition>,
    pub used_global_variables: Vec<VariableDefinition>,
    pub type_condition: SchemaType,
    pub directives: Vec<Directive>,
    pub selections: Vec<Selection>,
}

// ---------------------------------------------------------------------------
// Finding directives by kind.
pub const TAG_OTHER: u8 = 0;
pub const TAG_SPLIT_OPERATION: u8 = 1;
pub const TAG_TYPE_DISCRIMINATOR: u8 = 2;
pub const TAG_CLIENT_EXTENSION: u8 = 3;
pub const TAG_ACTOR_CHANGE: u8 = 4;
pub const TAG_INLINE: u8 = 5;
pub const TAG_REACT_FLIGHT: u8 = 6;
pub const TAG_CLIENT_COMPONENT_SERVER: u8 = 7;
pub const TAG_DEFER: u8 = 8;
pub const TAG_STREAM: u8 = 9;
pub const TAG_INTERNAL_METADATA: u8 = 10;
pub const TAG_RELAY: u8 = 11;
pub const TAG_CONNECTION: u8 = 12;
pub const TAG_REFETCHABLE: u8 = 13;
pub const TAG_CLIENT_ABSTRACT_TYPES: u8 = 14;
pub const TAG_INLINE_DATA: u8 = 15;
pub const TAG_MODULE: u8 = 16;
pub const TAG_RESOLVER: u8 = 17;
pub const TAG_REQUIRED: u8 = 18;
pub const TAG_FRAGMENT_ALIAS: u8 = 19;
pub const TAG_NO_INLINE: u8 = 20;
pub const TAG_HANDLE: u8 = 21;
pub const TAG_PROVIDED_VARIABLE: u8 = 22;
pub const TAG_CLIENT_EDGE: u8 = 23;

/// Which kind of directive `k` is.
pub open spec fn kind_tag(k: DirectiveKind) -> u8 {
    match k {
        DirectiveKind::Other(_) => TAG_OTHER,
        DirectiveKind::SplitOperation => TAG_SPLIT_OPERATION,
        DirectiveKind::TypeDiscriminator => TAG_TYPE_DISCRIMINATOR,
        DirectiveKind::ClientExtension => TAG_CLIENT_EXTENSION,
        DirectiveKind::ActorChange => TAG_ACTOR_CHANGE,
        DirectiveKind::Inline => TAG_INLINE,
        DirectiveKind::ReactFlight => TAG_REACT_FLIGHT,
        DirectiveKind::ClientComponentServer => TAG_CLIENT_COMPONENT_SERVER,
        DirectiveKind::Defer => TAG_DEFER,
        DirectiveKind::Stream => TAG_STREAM,
        DirectiveKind::InternalMetadata => TAG_INTERNAL_METADATA,
        DirectiveKind::Relay(_) => TAG_RELAY,
        DirectiveKind::Connection(_) => TAG_CONNECTION,
        DirectiveKind::Refetchable(_) => TAG_REFETCHABLE,
        DirectiveKind::ClientAbstractTypes(_) => TAG_CLIENT_ABSTRACT_TYPES,
        DirectiveKind::InlineData(_) => TAG_INLINE_DATA,
        DirectiveKind::Module(_) => TAG_MODULE,
        DirectiveKind::Resolver(_) => TAG_RESOLVER,
        DirectiveKind::Required(_) => TAG_REQUIRED,
        DirectiveKind::FragmentAlias(_) => TAG_FRAGMENT_ALIAS,
        DirectiveKind::NoInline(_) => TAG_NO_INLINE,
        DirectiveKind::Handle(_) => TAG_HANDLE,
        DirectiveKind::ProvidedVariable(_) => TAG_PROVIDED_VARIABLE,
        DirectiveKind::ClientEdge(_) => TAG_CLIENT_EDGE,
    }
}

/// Which kind of directive `k` is.
pub fn tag_of(k: &DirectiveKind) -> (t: u8)
    ensures
        t == kind_tag(*k),
{
    match k {
        DirectiveKind::Other(_) => TAG_OTHER,
        DirectiveKind::SplitOperation => TAG_SPLIT_OPERATION,
        DirectiveKind::TypeDiscriminator => TAG_TYPE_DISCRIMINATOR,
        DirectiveKind::ClientExtension => TAG_CLIENT_EXTENSION,
        DirectiveKind::ActorChange => TAG_ACTOR_CHANGE,
        DirectiveKind::Inline => TAG_INLINE,
        DirectiveKind::ReactFlight => TAG_REACT_FLIGHT,
        DirectiveKind::ClientComponentServer => TAG_CLIENT_COMPONENT_SERVER,
        DirectiveKind::Defer => TAG_DEFER,
        DirectiveKind::Stream => TAG_STREAM,
        DirectiveKind::InternalMetadata => TAG_INTERNAL_METADATA,
        DirectiveKind::Relay(_) => TAG_RELAY,
        DirectiveKind::Connection(_) => TAG_CONNECTION,
        DirectiveKind::Refetchable(_) => TAG_REFETCHABLE,
        DirectiveKind::ClientAbstractTypes(_) => TAG_CLIENT_ABSTRACT_TYPES,
        DirectiveKind::InlineData(_) => TAG_INLINE_DATA,
        DirectiveKind::Module(_) => TAG_MODULE,
        DirectiveKind::Resolver(_) => TAG_RESOLVER,
        DirectiveKind::Required(_) => TAG_REQUIRED,
        DirectiveKind::FragmentAlias(_) => TAG_FRAGMENT_ALIAS,
        DirectiveKind::NoInline(_) => TAG_NO_INLINE,
        DirectiveKind::Handle(_) => TAG_HANDLE,
        DirectiveKind::ProvidedVariable(_) => TAG_PROVIDED_VARIABLE,
        DirectiveKind::ClientEdge(_) => TAG_CLIENT_EDGE,
    }
}

/// The position of the first directive of kind `t`, if any.
pub open spec fn find_tag(ds: Seq<Directive>, t: u8) -> Option<int>
    decreases ds.len(),
{
    if ds.len() == 0 {
        None
    } else if kind_tag(ds[0].kind) == t {
        Some(0)
    } else {
        match find_tag(ds.drop_first(), t) {
            Some(i) => Some(i + 1),
            None => None,
        }
    }
}

/// The first directive of kind `t`, if any.
pub open spec fn find_kind(ds: Seq<Directive>, t: u8) -> Option<DirectiveKind> {
    match find_tag(ds, t) {
        Some(i) => Some(ds[i].kind),
        None => None,
    }
}

/// Whether some directive is of kind `t`.
pub open spec fn has_tag(ds: Seq<Directive>, t: u8) -> bool {
    find_tag(ds, t) is Some
}

pub proof fn lemma_find_tag(ds: Seq<Directive>, t: u8, i: int)
    requires
        0 <= i <= ds.len(),
        forall|j: int| 0 <= j < i ==> kind_tag(#[trigger] ds[j].kind) != t,
    ensures
        i < ds.len() && kind_tag(ds[i].kind) == t ==> find_tag(ds, t) == Some(i),
        i == ds.len() ==> find_tag(ds, t) is None,
    decreases i,
{
    if i > 0 {
        let t2 = ds.drop_first();
        assert forall|j: int| 0 <= j < i - 1 implies kind_tag(#[trigger] t2[j].kind) != t by {
            assert(t2[j] == ds[j + 1]);
        }
        lemma_find_tag(t2, t, i - 1);
    }
}

/// The position of the first directive of kind `t`, if any.
pub fn find_directive(ds: &Vec<Directive>, t: u8) -> (r: Option<usize>)
    ensures
        r is Some <==> find_tag(ds@, t) is Some,
        r matches Some(i) ==> find_tag(ds@, t) == Some(i as int) && i < ds@.len() && kind_tag(
            ds@[i as int].kind,
        ) == t,
{
    let mut i: usize = 0;
    while i < ds.len()
        invariant
            i <= ds@.len(),
            forall|j: int| 0 <= j < i ==> kind_tag(#[trigger] ds@[j].kind) != t,
        decreases ds@.len() - i,
    {
        if tag_of(&ds[i].kind) == t {
            proof {
                lemma_find_tag(ds@, t, i as int);
            }
            return Some(i);
        }
        i = i + 1;
    }
    proof {
        lemma_find_tag(ds@, t, i as int);
    }
    None
}

/// The directives of kind `t`, in order.
pub open spec fn filter_tag(ds: Seq<Directive>, t: u8) -> Seq<Directive>
    decreases ds.len(),
{
    if ds.len() == 0 {
        Seq::empty()
    } else if kind_tag(ds.last().kind) == t {
        filter_tag(ds.drop_last(), t).push(ds.last())
    } else {
        filter_tag(ds.drop_last(), t)
    }
}

} // verus!
