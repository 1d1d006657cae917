//! The property names and node kinds of the generated AST.
use vstd::prelude::*;

verus! {

pub const ALIAS: &'static str = "alias";
pub const ARGS: &'static str = "args";
pub const ARGUMENT_DEFINITIONS: &'static str = "argumentDefinitions";
pub const ABSTRACT_KEY: &'static str = "abstractKey";
pub const ACTION: &'static str = "action";
pub const ALIASED_FRAGMENT_SPREAD: &'static str = "AliasedFragmentSpread";
pub const ALIASED_INLINE_FRAGMENT_SPREAD: &'static str = "AliasedInlineFragmentSpread";
pub const ACTOR_CHANGE: &'static str = "ActorChange";
pub const BACKWARD: &'static str = "backward";
pub const CACHE_ID: &'static str = "cacheID";
pub const CLIENT_ABSTRACT_TYPES: &'static str = "clientAbstractTypes";
pub const CLIENT_COMPONENT: &'static str = "ClientComponent";
pub const CLIENT_EDGE_TO_SERVER_OBJECT: &'static str = "ClientEdgeToServerObject";
pub const CLIENT_EDGE_TO_CLIENT_OBJECT: &'static str = "ClientEdgeToClientObject";
pub const CLIENT_EDGE_BACKING_FIELD_KEY: &'static str = "backingField";
pub const CLIENT_EDGE_SELECTIONS_KEY: &'static str = "linkedField";
pub const CLIENT_EXTENSION: &'static str = "ClientExtension";
pub const COMPONENT_MODULE_PROVIDER: &'static str = "componentModuleProvider";
pub const CONCRETE_TYPE: &'static str = "concreteType";
pub const CONDITION: &'static str = "condition";
pub const CONDITION_VALUE: &'static str = "Condition";
pub const CONNECTION: &'static str = "connection";
pub const COUNT: &'static str = "count";
pub const CURSOR: &'static str = "cursor";
pub const DEFAULT_HANDLE_KEY: &'static str = "";
pub const DEFAULT_VALUE: &'static str = "defaultValue";
pub const DEFER: &'static str = "Defer";
pub const DIRECTION: &'static str = "direction";
pub const DOCUMENT_NAME: &'static str = "documentName";
pub const DYNAMIC_KEY: &'static str = "dynamicKey";
pub const DYNAMIC_KEY_ARGUMENT: &'static str = "__dynamicKey";
pub const FIELD: &'static str = "field";
pub const FIELDS: &'static str = "fields";
pub const FILTERS: &'static str = "filters";
pub const FLIGHT_FIELD: &'static str = "FlightField";
pub const FORWARD: &'static str = "forward";
pub const FRAGMENT: &'static str = "fragment";
pub const FRAGMENT_NAME: &'static str = "fragmentName";
pub const FRAGMENT_PATH_IN_RESULT: &'static str = "fragmentPathInResult";
pub const FRAGMENT_PROP_NAME: &'static str = "fragmentPropName";
pub const FRAGMENT_SPREAD: &'static str = "FragmentSpread";
pub const FRAGMENT_SPREAD_PROPERTY: &'static str = "fragmentSpread";
pub const FRAGMENT_VALUE: &'static str = "Fragment";
pub const HANDLE: &'static str = "handle";
pub const HANDLE_ARGS: &'static str = "handleArgs";
pub const HAS_CLIENT_EDGES: &'static str = "hasClientEdges";
pub const ID: &'static str = "id";
pub const IDENTIFIER_FIELD: &'static str = "identifierField";
pub const IF: &'static str = "if";
pub const INLINE_DATA_FRAGMENT: &'static str = "InlineDataFragment";
pub const INLINE_DATA_FRAGMENT_SPREAD: &'static str = "InlineDataFragmentSpread";
pub const INLINE_FRAGMENT: &'static str = "InlineFragment";
pub const ITEMS: &'static str = "items";
pub const KEY: &'static str = "key";
pub const KIND: &'static str = "kind";
pub const LABEL: &'static str = "label";
pub const LINKED_FIELD: &'static str = "LinkedField";
pub const LINKED_FIELD_PROPERTY: &'static str = "linkedField";
pub const LINKED_HANDLE: &'static str = "LinkedHandle";
pub const LIST_VALUE: &'static str = "ListValue";
pub const LITERAL: &'static str = "Literal";
pub const LOCAL_ARGUMENT: &'static str = "LocalArgument";
pub const MASK: &'static str = "mask";
pub const METADATA: &'static str = "metadata";
pub const MODULE_IMPORT: &'static str = "ModuleImport";
pub const MUTATION: &'static str = "mutation";
pub const NAME: &'static str = "name";
pub const NORMALIZATION_NODE: &'static str = "normalizationNode";
pub const OBJECT_VALUE: &'static str = "ObjectValue";
pub const OPERATION: &'static str = "operation";
pub const OPERATION_KIND: &'static str = "operationKind";
pub const OPERATION_MODULE_PROVIDER: &'static str = "operationModuleProvider";
pub const OPERATION_VALUE: &'static str = "Operation";
pub const PARAMS: &'static str = "params";
pub const PASSING_VALUE: &'static str = "passingValue";
pub const PATH: &'static str = "path";
pub const PLURAL: &'static str = "plural";
pub const PROVIDED_VARIABLES: &'static str = "providedVariables";
pub const PROVIDED_VARIABLES_DEFINITION: &'static str = "providedVariablesDefinition";
pub const QUERY: &'static str = "query";
pub const REFETCH: &'static str = "refetch";
pub const RELAY_LIVE_RESOLVER: &'static str = "RelayLiveResolver";
pub const RELAY_RESOLVER: &'static str = "RelayResolver";
pub const RELAY_RESOLVER_NORMALIZATION_INFO: &'static str = "normalizationInfo";
pub const REQUEST: &'static str = "Request";
pub const REQUIRED_FIELD: &'static str = "RequiredField";
pub const RESOLVER_MODULE: &'static str = "resolverModule";
pub const ROOT_ARGUMENT: &'static str = "RootArgument";
pub const SCALAR_FIELD: &'static str = "ScalarField";
pub const SCALAR_HANDLE: &'static str = "ScalarHandle";
pub const SELECTIONS: &'static str = "selections";
pub const SPLIT_OPERATION: &'static str = "SplitOperation";
pub const STORAGE_KEY: &'static str = "storageKey";
pub const STREAM: &'static str = "Stream";
pub const STREAM_NAME: &'static str = "stream";
pub const SUBSCRIPTION: &'static str = "subscription";
pub const TEXT: &'static str = "text";
pub const TYPE: &'static str = "type";
pub const TYPE_DISCRIMINATOR: &'static str = "TypeDiscriminator";
pub const VALUE: &'static str = "value";
pub const VARIABLE: &'static str = "Variable";
pub const VARIABLE_NAME: &'static str = "variableName";
pub const DIRECTION_FORWARD: &'static str = "forward";
pub const DIRECTION_BACKWARD: &'static str = "backward";
pub const IF_ARGUMENT: &'static str = "if";
pub const LABEL_ARGUMENT: &'static str = "label";
pub const MODULE_ID_ARGUMENT: &'static str = "module_id";
pub const ACTION_NONE: &'static str = "NONE";
pub const ACTION_LOG: &'static str = "LOG";
pub const ACTION_THROW: &'static str = "THROW";
pub const ABSTRACT_KEY_PREFIX: &'static str = "__is";
pub const GRAPHQL_EXTENSION: &'static str = ".graphql";
pub const NORMALIZATION_SUFFIX: &'static str = "$normalization.graphql";
pub const GENERATED_DIRECTORY: &'static str = "__generated__/";

} // verus!
