//! Code generation for literal values, arguments, aliases and variable
//! definitions.
use vstd::prelude::*;
use crate::ast::{
    denote, entries_denote, entries_keys_below, opt_str_view, prim_keys_below, prims_denote,
    prims_keys_below, Ast, AstKey, ObjectEntry, Primitive, Tree,
};
use crate::builder::{
    arena, entry, evolves, key_means, lemma_entries_stable, lemma_key_means_stable,
    lemma_prims_stable, means, str_prim, CodegenBuilder,
};
use crate::constants::{ALIAS, DEFAULT_VALUE, FIELDS, ITEMS, KIND, LIST_VALUE, LITERAL, LOCAL_ARGUMENT, NAME, OBJECT_VALUE, ROOT_ARGUMENT, VALUE, VARIABLE, VARIABLE_NAME};
use crate::ir::{Argument, ConstantArgument, ConstantValue, Value, VariableDefinition};
use crate::strings::{
    copy_string, decimal, lemma_name_order_bounds, name_order, name_order_of, strs_view,
    usize_to_string,
};

verus! {

// ---------------------------------------------------------------------------
// What the generated nodes are.
/// The names of literal object fields.
pub open spec fn const_arg_names(fs: Seq<ConstantArgument>) -> Seq<Seq<char>> {
    Seq::new(fs.len(), |i: int| fs[i].name@)
}

/// The names of arguments.
pub open spec fn arg_names(args: Seq<Argument>) -> Seq<Seq<char>> {
    Seq::new(args.len(), |i: int| args[i].name@)
}

/// The names of variable definitions.
pub open spec fn var_names(defs: Seq<VariableDefinition>) -> Seq<Seq<char>> {
    Seq::new(defs.len(), |i: int| defs[i].name@)
}

/// The JSON value of a literal; object fields are sorted by name.
pub open spec fn constant_tree(v: ConstantValue) -> Tree
    decreases v,
{
    match v {
        ConstantValue::Int(i) => Tree::Int(i as int),
        ConstantValue::Float(f) => Tree::Float(f),
        ConstantValue::String(s) => Tree::Str(s@),
        ConstantValue::Boolean(b) => Tree::Bool(b),
        ConstantValue::Null => Tree::Null,
        ConstantValue::Enum(s) => Tree::Str(s@),
        ConstantValue::List(vs) => Tree::Array(constant_trees(vs@)),
        ConstantValue::Object(fs) => Tree::Object(
            constant_field_trees(fs@, name_order(const_arg_names(fs@))),
        ),
    }
}

pub open spec fn constant_trees(vs: Seq<ConstantValue>) -> Seq<Tree>
    decreases vs,
{
    if vs.len() == 0 {
        Seq::empty()
    } else {
        constant_trees(vs.subrange(0, vs.len() - 1)).push(constant_tree(vs[vs.len() - 1]))
    }
}

/// The fields of a literal object, in the given order.
pub open spec fn constant_field_trees(fs: Seq<ConstantArgument>, order: Seq<usize>) -> Seq<
    (Seq<char>, Tree),
>
    decreases fs, order.len(),
{
    if order.len() == 0 {
        Seq::empty()
    } else {
        let rest = constant_field_trees(fs, order.subrange(0, order.len() - 1));
        let i = order[order.len() - 1] as int;
        if 0 <= i < fs.len() {
            rest.push((fs[i].name@, constant_tree(fs[i].value)))
        } else {
            rest
        }
    }
}

/// `{kind: "Literal", name, value}`.
pub open spec fn literal_tree(name: Seq<char>, value: Tree) -> Tree {
    Tree::Object(
        seq![(KIND@, Tree::Str(LITERAL@)), (NAME@, Tree::Str(name)), (VALUE@, value)],
    )
}

/// The name of the `i`-th item of list argument `name`: `name.i`.
pub open spec fn item_name(name: Seq<char>, i: nat) -> Seq<char> {
    name + seq!['.'] + decimal(i)
}

/// The node of argument `name: v`, or `None` for a null literal.
pub open spec fn argument_tree(name: Seq<char>, v: Value) -> Option<Tree>
    decreases v,
{
    match v {
        Value::Constant(c) => if c is Null {
            None
        } else {
            Some(literal_tree(name, constant_tree(c)))
        },
        Value::Variable(var) => Some(
            Tree::Object(
                seq![
                    (KIND@, Tree::Str(VARIABLE@)),
                    (NAME@, Tree::Str(name)),
                    (VARIABLE_NAME@, Tree::Str(var@)),
                ],
            ),
        ),
        Value::List(vs) => Some(
            Tree::Object(
                seq![
                    (ITEMS@, Tree::Array(list_item_trees(name, vs@))),
                    (KIND@, Tree::Str(LIST_VALUE@)),
                    (NAME@, Tree::Str(name)),
                ],
            ),
        ),
        Value::Object(fs) => Some(
            Tree::Object(
                seq![
                    (FIELDS@, Tree::Array(object_field_trees(fs@, name_order(arg_names(fs@))))),
                    (KIND@, Tree::Str(OBJECT_VALUE@)),
                    (NAME@, Tree::Str(name)),
                ],
            ),
        ),
    }
}

/// The items of list argument `name`; a null item stays as a null.
pub open spec fn list_item_trees(name: Seq<char>, vs: Seq<Value>) -> Seq<Tree>
    decreases vs,
{
    if vs.len() == 0 {
        Seq::empty()
    } else {
        list_item_trees(name, vs.subrange(0, vs.len() - 1)).push(
            match argument_tree(item_name(name, (vs.len() - 1) as nat), vs[vs.len() - 1]) {
                Some(t) => t,
                None => Tree::Null,
            },
        )
    }
}

/// The fields of an object argument in the given order; a null field stays as a null literal.
pub open spec fn object_field_trees(fs: Seq<Argument>, order: Seq<usize>) -> Seq<Tree>
    decreases fs, order.len(),
{
    if order.len() == 0 {
        Seq::empty()
    } else {
        let rest = object_field_trees(fs, order.subrange(0, order.len() - 1));
        let i = order[order.len() - 1] as int;
        if 0 <= i < fs.len() {
            rest.push(
                match argument_tree(fs[i].name@, fs[i].value) {
                    Some(t) => t,
                    None => literal_tree(fs[i].name@, Tree::Null),
                },
            )
        } else {
            rest
        }
    }
}

/// The nodes of the arguments in the given order, leaving out null literals.
pub open spec fn sorted_argument_trees(args: Seq<Argument>, order: Seq<usize>) -> Seq<Tree>
    decreases order.len(),
{
    if order.len() == 0 {
        Seq::empty()
    } else {
        let rest = sorted_argument_trees(args, order.subrange(0, order.len() - 1));
        let i = order[order.len() - 1] as int;
        match argument_tree(args[i].name@, args[i].value) {
            Some(t) => rest.push(t),
            None => rest,
        }
    }
}

/// The array of the arguments sorted by name without null literals, or `None` when it is empty.
pub open spec fn arguments_tree(args: Seq<Argument>) -> Option<Tree> {
    let ts = sorted_argument_trees(args, name_order(arg_names(args)));
    if ts.len() == 0 {
        None
    } else {
        Some(Tree::Array(ts))
    }
}

/// Whether a value mentions a variable.
pub open spec fn value_has_variable(v: Value) -> bool
    decreases v,
{
    match v {
        Value::Variable(_) => true,
        Value::Constant(_) => false,
        Value::List(vs) => values_have_variable(vs@),
        Value::Object(fs) => args_have_variable(fs@),
    }
}

pub open spec fn values_have_variable(vs: Seq<Value>) -> bool
    decreases vs,
{
    vs.len() > 0 && (values_have_variable(vs.subrange(0, vs.len() - 1)) || value_has_variable(
        vs[vs.len() - 1],
    ))
}

/// Whether some argument mentions a variable.
pub open spec fn args_have_variable(args: Seq<Argument>) -> bool
    decreases args,
{
    args.len() > 0 && (args_have_variable(args.subrange(0, args.len() - 1)) || value_has_variable(
        args[args.len() - 1].value,
    ))
}

/// The `args` value of a node: the argument array, or a skippable null.
pub open spec fn args_value_tree(args: Seq<Argument>) -> Tree {
    match arguments_tree(args) {
        Some(t) => t,
        None => Tree::SkippableNull,
    }
}

/// The `storageKey` value of a node: present when the arguments mention no variable.
pub open spec fn storage_key_tree(name: Seq<char>, args: Seq<Argument>) -> Tree {
    match arguments_tree(args) {
        None => Tree::SkippableNull,
        Some(t) => if !args_have_variable(args) {
            Tree::StorageKey(name, Box::new(t))
        } else {
            Tree::SkippableNull
        },
    }
}

/// The `alias` value: the alias when it differs from the name.
pub open spec fn alias_tree(alias: Option<Seq<char>>, name: Seq<char>) -> Tree {
    match alias {
        None => Tree::SkippableNull,
        Some(a) => if a == name {
            Tree::SkippableNull
        } else {
            Tree::Str(a)
        },
    }
}

pub open spec fn default_value_tree(d: Option<ConstantValue>) -> Tree {
    match d {
        Some(c) => constant_tree(c),
        None => Tree::Null,
    }
}

/// `{defaultValue, kind: "LocalArgument", name}`.
pub open spec fn local_argument_tree(def: VariableDefinition) -> Tree {
    Tree::Object(
        seq![
            (DEFAULT_VALUE@, default_value_tree(def.default_value)),
            (KIND@, Tree::Str(LOCAL_ARGUMENT@)),
            (NAME@, Tree::Str(def.name@)),
        ],
    )
}

/// `{kind: "RootArgument", name}`.
pub open spec fn root_argument_tree(def: VariableDefinition) -> Tree {
    Tree::Object(seq![(KIND@, Tree::Str(ROOT_ARGUMENT@)), (NAME@, Tree::Str(def.name@))])
}

/// The argument definitions of an operation, in declaration order.
pub open spec fn operation_variable_definitions_tree(defs: Seq<VariableDefinition>) -> Tree {
    Tree::Array(Seq::new(defs.len(), |i: int| local_argument_tree(defs[i])))
}

/// The argument definitions of a fragment: its own variables and the global
/// ones it uses, sorted by name.
pub open spec fn fragment_variable_definitions_tree(
    locals: Seq<VariableDefinition>,
    globals: Seq<VariableDefinition>,
) -> Tree {
    let all = Seq::new(locals.len(), |i: int| local_argument_tree(locals[i])) + Seq::new(
        globals.len(),
        |i: int| root_argument_tree(globals[i]),
    );
    let order = name_order(var_names(locals) + var_names(globals));
    Tree::Array(Seq::new(order.len(), |i: int| all[order[i] as int]))
}

/// `r` is an interned node meaning `t` exactly when `t` is present.
pub open spec fn opt_key_means(b: CodegenBuilder, r: Option<AstKey>, t: Option<Tree>) -> bool {
    match r {
        None => t is None,
        Some(k) => t is Some && key_means(b, k, t->0),
    }
}

// ---------------------------------------------------------------------------
// Helpers on names.
fn copy_const_arg_names(fs: &Vec<ConstantArgument>) -> (r: Vec<String>)
    ensures
        strs_view(r@) == const_arg_names(fs@),
{
    let mut r: Vec<String> = Vec::new();
    let mut i: usize = 0;
    while i < fs.len()
        invariant
            i <= fs@.len(),
            strs_view(r@) =~= const_arg_names(fs@).take(i as int),
        decreases fs@.len() - i,
    {
        let ghost r0 = r@;
        r.push(copy_string(&fs[i].name));
        proof {
            assert(strs_view(r@) =~= strs_view(r0).push(fs@[i as int].name@));
            assert(const_arg_names(fs@).take(i + 1) =~= const_arg_names(fs@).take(i as int).push(fs@[i as int].name@));
        }
        i = i + 1;
    }
    assert(const_arg_names(fs@).take(i as int) =~= const_arg_names(fs@));
    r
}

fn copy_arg_names(args: &Vec<Argument>) -> (r: Vec<String>)
    ensures
        strs_view(r@) == arg_names(args@),
{
    let mut r: Vec<String> = Vec::new();
    let mut i: usize = 0;
    while i < args.len()
        invariant
            i <= args@.len(),
            strs_view(r@) =~= arg_names(args@).take(i as int),
        decreases args@.len() - i,
    {
        let ghost r0 = r@;
        r.push(copy_string(&args[i].name));
        proof {
            assert(strs_view(r@) =~= strs_view(r0).push(args@[i as int].name@));
            assert(arg_names(args@).take(i + 1) =~= arg_names(args@).take(i as int).push(args@[i as int].name@));
        }
        i = i + 1;
    }
    assert(arg_names(args@).take(i as int) =~= arg_names(args@));
    r
}

/// Appends the names of `defs` to `r`.
fn push_var_names(r: &mut Vec<String>, defs: &Vec<VariableDefinition>)
    ensures
        strs_view(final(r)@) == strs_view(old(r)@) + var_names(defs@),
{
    let ghost start = strs_view(r@);
    let mut i: usize = 0;
    while i < defs.len()
        invariant
            i <= defs@.len(),
            strs_view(r@) =~= start + var_names(defs@).take(i as int),
        decreases defs@.len() - i,
    {
        let ghost r0 = r@;
        r.push(copy_string(&defs[i].name));
        proof {
            assert(strs_view(r@) =~= strs_view(r0).push(defs@[i as int].name@));
            assert(var_names(defs@).take(i + 1) =~= var_names(defs@).take(i as int).push(defs@[i as int].name@));
        }
        i = i + 1;
    }
    assert(var_names(defs@).take(i as int) =~= var_names(defs@));
}

// ---------------------------------------------------------------------------
// Whether values mention variables.
fn value_contains_variable(value: &Value) -> (r: bool)
    ensures
        r == value_has_variable(*value),
    decreases value,
{
    match value {
        Value::Variable(_) => true,
        Value::Constant(_) => false,
        Value::List(vs) => {
            let mut i: usize = 0;
            while i < vs.len()
                invariant
                    *value == Value::List(*vs),
                    i <= vs@.len(),
                    values_have_variable(vs@.take(i as int)) == false,
                decreases vs@.len() - i,
            {
                proof {
                    assert(decreases_to!(*value => value->List_0));
                    assert(decreases_to!(value->List_0 => value->List_0@));
                    assert(decreases_to!(value->List_0@ => value->List_0@[i as int]));
                    assert(vs@.take(i + 1).subrange(0, i as int) =~= vs@.take(i as int));
                }
                if value_contains_variable(&vs[i]) {
                    proof {
                        assert(values_have_variable(vs@.take(i + 1)));
                        lemma_values_prefix(vs@, i + 1);
                    }
                    return true;
                }
                i = i + 1;
            }
            assert(vs@.take(i as int) =~= vs@);
            false
        },
        Value::Object(fs) => {
            let mut i: usize = 0;
            while i < fs.len()
                invariant
                    *value == Value::Object(*fs),
                    i <= fs@.len(),
                    args_have_variable(fs@.take(i as int)) == false,
                decreases fs@.len() - i,
            {
                proof {
                    assert(decreases_to!(*value => value->Object_0));
                    assert(decreases_to!(value->Object_0 => value->Object_0@));
                    assert(decreases_to!(value->Object_0@ => value->Object_0@[i as int]));
                    assert(decreases_to!(value->Object_0@[i as int] => value->Object_0@[i as int].value));
                    assert(fs@.take(i + 1).subrange(0, i as int) =~= fs@.take(i as int));
                }
                if value_contains_variable(&fs[i].value) {
                    proof {
                        assert(args_have_variable(fs@.take(i + 1)));
                        lemma_args_prefix(fs@, i + 1);
                    }
                    return true;
                }
                i = i + 1;
            }
            assert(fs@.take(i as int) =~= fs@);
            false
        },
    }
}

proof fn lemma_values_prefix(vs: Seq<Value>, n: int)
    requires
        0 <= n <= vs.len(),
        values_have_variable(vs.take(n)),
    ensures
        values_have_variable(vs),
    decreases vs.len(),
{
    if n < vs.len() {
        assert(vs.subrange(0, vs.len() - 1).take(n) =~= vs.take(n));
        lemma_values_prefix(vs.subrange(0, vs.len() - 1), n);
    } else {
        assert(vs.take(n) =~= vs);
    }
}

proof fn lemma_args_prefix(args: Seq<Argument>, n: int)
    requires
        0 <= n <= args.len(),
        args_have_variable(args.take(n)),
    ensures
        args_have_variable(args),
    decreases args.len(),
{
    if n < args.len() {
        assert(args.subrange(0, args.len() - 1).take(n) =~= args.take(n));
        lemma_args_prefix(args.subrange(0, args.len() - 1), n);
    } else {
        assert(args.take(n) =~= args);
    }
}

/// A storage key is only pre-computable if the arguments don't contain variables.
pub fn is_static_storage_key_available(arguments: &Vec<Argument>) -> (r: bool)
    ensures
        r == !args_have_variable(arguments@),
{
    let mut i: usize = 0;
    while i < arguments.len()
        invariant
            i <= arguments@.len(),
            args_have_variable(arguments@.take(i as int)) == false,
        decreases arguments@.len() - i,
    {
        proof {
            assert(arguments@.take(i + 1).subrange(0, i as int) =~= arguments@.take(i as int));
        }
        if value_contains_variable(&arguments[i].value) {
            proof {
                assert(args_have_variable(arguments@.take(i + 1)));
                lemma_args_prefix(arguments@, i + 1);
            }
            return false;
        }
        i = i + 1;
    }
    assert(arguments@.take(i as int) =~= arguments@);
    true
}

/// The `alias` entry of a field node.
pub fn build_alias(alias: Option<&String>, name: &String) -> (e: ObjectEntry)
    ensures
        e.key@ == ALIAS@,
        e.value is SkippableNull || e.value is String,
        forall|a: Seq<Ast>|
            #[trigger] denote(a, e.value) == alias_tree(
                match alias {
                    Some(s) => Some(s@),
                    None => None,
                },
                name@,
            ),
{
    let value = match alias {
        None => Primitive::SkippableNull,
        Some(alias) => {
            if *alias == *name {
                Primitive::SkippableNull
            } else {
                Primitive::String(copy_string(alias))
            }
        },
    };
    entry(ALIAS, value)
}

impl CodegenBuilder<'_> {
    /// The JSON value of a literal.
    pub fn build_constant_value(&mut self, value: &ConstantValue) -> (p: Primitive)
        ensures
            evolves(*old(self), *final(self)),
            means(*final(self), p, constant_tree(*value)),
        decreases value,
    {
        let ghost b_start = *self;
        self.check();
        match value {
            ConstantValue::Int(v) => Primitive::Int(*v),
            ConstantValue::Float(v) => Primitive::Float(*v),
            ConstantValue::String(v) => Primitive::String(copy_string(v)),
            ConstantValue::Boolean(v) => Primitive::Bool(*v),
            ConstantValue::Null => Primitive::Null,
            ConstantValue::Enum(v) => Primitive::String(copy_string(v)),
            ConstantValue::List(vs) => {
                let mut items: Vec<Primitive> = Vec::new();
                let mut i: usize = 0;
                while i < vs.len()
                    invariant
                        *value == ConstantValue::List(*vs),
                        i <= vs@.len(),
                        evolves(b_start, *self),
                        prims_keys_below(items@, arena(*self).len()),
                        prims_denote(arena(*self), items@) == constant_trees(vs@.take(i as int)),
                    decreases vs@.len() - i,
                {
                    proof {
                        assert(decreases_to!(*value => value->List_0));
                        assert(decreases_to!(value->List_0 => value->List_0@));
                        assert(decreases_to!(value->List_0@ => value->List_0@[i as int]));
                    }
                    let ghost b0 = *self;
                    let ghost items0 = items@;
                    let p = self.build_constant_value(&vs[i]);
                    proof {
                        lemma_prims_stable(b0, *self, items0);
                    }
                    items.push(p);
                    proof {
                        assert(vs@.take(i + 1).subrange(0, i as int) =~= vs@.take(i as int));
                        assert(prims_denote(arena(*self), items@) =~= prims_denote(
                            arena(*self),
                            items0,
                        ).push(constant_tree(vs@[i as int])));
                    }
                    i = i + 1;
                }
                assert(vs@.take(i as int) =~= vs@);
                let k = self.array(items);
                Primitive::Key(k)
            },
            ConstantValue::Object(fs) => {
                let names = copy_const_arg_names(fs);
                let order = name_order_of(&names);
                let ghost ord = name_order(const_arg_names(fs@));
                proof {
                    lemma_name_order_bounds(const_arg_names(fs@), fs@.len());
                }
                let mut entries: Vec<ObjectEntry> = Vec::new();
                let mut i: usize = 0;
                while i < order.len()
                    invariant
                        *value == ConstantValue::Object(*fs),
                        order@ == ord,
                        ord.len() == fs@.len(),
                        forall|j: int| 0 <= j < ord.len() ==> #[trigger] ord[j] < fs@.len(),
                        i <= ord.len(),
                        evolves(b_start, *self),
                        entries_keys_below(entries@, arena(*self).len()),
                        entries_denote(arena(*self), entries@) == constant_field_trees(
                            fs@,
                            ord.take(i as int),
                        ),
                    decreases ord.len() - i,
                {
                    let idx = order[i];
                    proof {
                        assert(ord[i as int] < fs@.len());
                        assert(decreases_to!(*value => value->Object_0));
                        assert(decreases_to!(value->Object_0 => value->Object_0@));
                        assert(decreases_to!(value->Object_0@ => value->Object_0@[idx as int]));
                        assert(decreases_to!(value->Object_0@[idx as int] => value->Object_0@[idx as int].value));
                    }
                    let ghost b0 = *self;
                    let ghost es0 = entries@;
                    let p = self.build_constant_value(&fs[idx].value);
                    proof {
                        lemma_entries_stable(b0, *self, es0);
                    }
                    entries.push(ObjectEntry { key: copy_string(&fs[idx].name), value: p });
                    proof {
                        assert(ord.take(i + 1).subrange(0, i as int) =~= ord.take(i as int));
                        assert(entries_denote(arena(*self), entries@) =~= entries_denote(
                            arena(*self),
                            es0,
                        ).push((fs@[idx as int].name@, constant_tree(fs@[idx as int].value))));
                    }
                    i = i + 1;
                }
                assert(ord.take(i as int) =~= ord);
                let k = self.object(entries);
                Primitive::Key(k)
            },
        }
    }

    /// The literal node of `arg_name: arg_value`, or `None` for a null literal.
    pub fn build_constant_argument(&mut self, arg_name: &String, arg_value: &ConstantValue) -> (r:
        Option<AstKey>)
        ensures
            evolves(*old(self), *final(self)),
            opt_key_means(
                *final(self),
                r,
                if arg_value is Null {
                    None
                } else {
                    Some(literal_tree(arg_name@, constant_tree(*arg_value)))
                },
            ),
    {
        self.check();
        match arg_value {
            ConstantValue::Null => None,
            _ => {
                let value = self.build_constant_value(arg_value);
                let mut es: Vec<ObjectEntry> = Vec::new();
                es.push(entry(KIND, str_prim(LITERAL)));
                es.push(entry(NAME, Primitive::String(copy_string(arg_name))));
                es.push(entry(VALUE, value));
                let ghost a = arena(*self);
                let k = self.object(es);
                assert(entries_denote(a, es@) =~= seq![
                    (KIND@, Tree::Str(LITERAL@)),
                    (NAME@, Tree::Str(arg_name@)),
                    (VALUE@, constant_tree(*arg_value)),
                ]);
                Some(k)
            },
        }
    }

    /// The node of argument `arg_name: arg_value`, or `None` for a null literal.
    pub fn build_argument(&mut self, arg_name: &String, arg_value: &Value) -> (r: Option<AstKey>)
        ensures
            evolves(*old(self), *final(self)),
            opt_key_means(*final(self), r, argument_tree(arg_name@, *arg_value)),
        decreases arg_value,
    {
        let ghost b_start = *self;
        self.check();
        match arg_value {
            Value::Constant(c) => self.build_constant_argument(arg_name, c),
            Value::Variable(var) => {
                let mut es: Vec<ObjectEntry> = Vec::new();
                es.push(entry(KIND, str_prim(VARIABLE)));
                es.push(entry(NAME, Primitive::String(copy_string(arg_name))));
                es.push(entry(VARIABLE_NAME, Primitive::String(copy_string(var))));
                let ghost a = arena(*self);
                let k = self.object(es);
                assert(entries_denote(a, es@) =~= seq![
                    (KIND@, Tree::Str(VARIABLE@)),
                    (NAME@, Tree::Str(arg_name@)),
                    (VARIABLE_NAME@, Tree::Str(var@)),
                ]);
                Some(k)
            },
            Value::List(vs) => {
                let mut items: Vec<Primitive> = Vec::new();
                let mut i: usize = 0;
                while i < vs.len()
                    invariant
                        *arg_value == Value::List(*vs),
                        i <= vs@.len(),
                        evolves(b_start, *self),
                        prims_keys_below(items@, arena(*self).len()),
                        prims_denote(arena(*self), items@) == list_item_trees(
                            arg_name@,
                            vs@.take(i as int),
                        ),
                    decreases vs@.len() - i,
                {
                    proof {
                        assert(decreases_to!(*arg_value => arg_value->List_0));
                        assert(decreases_to!(arg_value->List_0 => arg_value->List_0@));
                        assert(decreases_to!(arg_value->List_0@ => arg_value->List_0@[i as int]));
                    }
                    let ghost b0 = *self;
                    let ghost items0 = items@;
                    let digits = usize_to_string(i);
                    let dotted = arg_name.clone().concat(".");
                    let item_key = dotted.concat(digits.as_str());
                    proof {
                        reveal_strlit(".");
                        assert(item_key@ =~= item_name(arg_name@, i as nat));
                    }
                    let built = self.build_argument(&item_key, &vs[i]);
                    let p = match built {
                        None => Primitive::Null,
                        Some(k) => Primitive::Key(k),
                    };
                    proof {
                        lemma_prims_stable(b0, *self, items0);
                    }
                    items.push(p);
                    proof {
                        let sub = vs@.take(i + 1);
                        assert(sub.subrange(0, i as int) =~= vs@.take(i as int));
                        assert(sub[sub.len() - 1] == vs@[i as int]);
                        assert(prims_denote(arena(*self), items@) =~= prims_denote(
                            arena(*self),
                            items0,
                        ).push(denote(arena(*self), p)));
                    }
                    i = i + 1;
                }
                assert(vs@.take(i as int) =~= vs@);
                let ghost a0 = arena(*self);
                let items_key = self.array(items);
                let mut es: Vec<ObjectEntry> = Vec::new();
                es.push(entry(ITEMS, Primitive::Key(items_key)));
                es.push(entry(KIND, str_prim(LIST_VALUE)));
                es.push(entry(NAME, Primitive::String(copy_string(arg_name))));
                let ghost a = arena(*self);
                let k = self.object(es);
                assert(entries_denote(a, es@) =~= seq![
                    (ITEMS@, Tree::Array(list_item_trees(arg_name@, vs@))),
                    (KIND@, Tree::Str(LIST_VALUE@)),
                    (NAME@, Tree::Str(arg_name@)),
                ]);
                Some(k)
            },
            Value::Object(fs) => {
                let names = copy_arg_names(fs);
                let order = name_order_of(&names);
                let ghost ord = name_order(arg_names(fs@));
                proof {
                    lemma_name_order_bounds(arg_names(fs@), fs@.len());
                }
                let mut fields: Vec<Primitive> = Vec::new();
                let mut i: usize = 0;
                while i < order.len()
                    invariant
                        *arg_value == Value::Object(*fs),
                        order@ == ord,
                        ord.len() == fs@.len(),
                        forall|j: int| 0 <= j < ord.len() ==> #[trigger] ord[j] < fs@.len(),
                        i <= ord.len(),
                        evolves(b_start, *self),
                        prims_keys_below(fields@, arena(*self).len()),
                        prims_denote(arena(*self), fields@) == object_field_trees(
                            fs@,
                            ord.take(i as int),
                        ),
                    decreases ord.len() - i,
                {
                    let idx = order[i];
                    proof {
                        assert(ord[i as int] < fs@.len());
                        assert(decreases_to!(*arg_value => arg_value->Object_0));
                        assert(decreases_to!(arg_value->Object_0 => arg_value->Object_0@));
                        assert(decreases_to!(arg_value->Object_0@ => arg_value->Object_0@[idx as int]));
                        assert(decreases_to!(arg_value->Object_0@[idx as int] => arg_value->Object_0@[idx as int].value));
                    }
                    let ghost b0 = *self;
                    let ghost fields0 = fields@;
                    let built = self.build_argument(&fs[idx].name, &fs[idx].value);
                    let p = match built {
                        Some(k) => Primitive::Key(k),
                        None => {
                            let mut es: Vec<ObjectEntry> = Vec::new();
                            es.push(entry(KIND, str_prim(LITERAL)));
                            es.push(entry(NAME, Primitive::String(copy_string(&fs[idx].name))));
                            es.push(entry(VALUE, Primitive::Null));
                            let ghost a = arena(*self);
                            let k = self.object(es);
                            assert(entries_denote(a, es@) =~= seq![
                                (KIND@, Tree::Str(LITERAL@)),
                                (NAME@, Tree::Str(fs@[idx as int].name@)),
                                (VALUE@, Tree::Null),
                            ]);
                            Primitive::Key(k)
                        },
                    };
                    proof {
                        lemma_prims_stable(b0, *self, fields0);
                    }
                    fields.push(p);
                    proof {
                        assert(ord.take(i + 1).subrange(0, i as int) =~= ord.take(i as int));
                        assert(prims_denote(arena(*self), fields@) =~= prims_denote(
                            arena(*self),
                            fields0,
                        ).push(denote(arena(*self), p)));
                    }
                    i = i + 1;
                }
                assert(ord.take(i as int) =~= ord);
                let fields_key = self.array(fields);
                let mut es: Vec<ObjectEntry> = Vec::new();
                es.push(entry(FIELDS, Primitive::Key(fields_key)));
                es.push(entry(KIND, str_prim(OBJECT_VALUE)));
                es.push(entry(NAME, Primitive::String(copy_string(arg_name))));
                let ghost a = arena(*self);
                let k = self.object(es);
                assert(entries_denote(a, es@) =~= seq![
                    (FIELDS@, Tree::Array(object_field_trees(fs@, ord))),
                    (KIND@, Tree::Str(OBJECT_VALUE@)),
                    (NAME@, Tree::Str(arg_name@)),
                ]);
                Some(k)
            },
        }
    }

    /// The array of `arguments` sorted by name, leaving out null literals;
    /// `None` when nothing is left.
    pub fn build_arguments(&mut self, arguments: &Vec<Argument>) -> (r: Option<AstKey>)
        ensures
            evolves(*old(self), *final(self)),
            opt_key_means(*final(self), r, arguments_tree(arguments@)),
    {
        let ghost b_start = *self;
        self.check();
        let names = copy_arg_names(arguments);
        let order = name_order_of(&names);
        let ghost ord = name_order(arg_names(arguments@));
        proof {
            lemma_name_order_bounds(arg_names(arguments@), arguments@.len());
        }
        let mut items: Vec<Primitive> = Vec::new();
        let mut i: usize = 0;
        while i < order.len()
            invariant
                order@ == ord,
                ord.len() == arguments@.len(),
                forall|j: int| 0 <= j < ord.len() ==> #[trigger] ord[j] < arguments@.len(),
                i <= ord.len(),
                evolves(b_start, *self),
                prims_keys_below(items@, arena(*self).len()),
                prims_denote(arena(*self), items@) == sorted_argument_trees(
                    arguments@,
                    ord.take(i as int),
                ),
            decreases ord.len() - i,
        {
            let idx = order[i];
            proof {
                assert(ord[i as int] < arguments@.len());
            }
            let ghost b0 = *self;
            let ghost items0 = items@;
            let built = self.build_argument(&arguments[idx].name, &arguments[idx].value);
            proof {
                lemma_prims_stable(b0, *self, items0);
                assert(ord.take(i + 1).subrange(0, i as int) =~= ord.take(i as int));
            }
            match built {
                Some(k) => {
                    items.push(Primitive::Key(k));
                    proof {
                        assert(prims_denote(arena(*self), items@) =~= prims_denote(
                            arena(*self),
                            items0,
                        ).push(key_tree_of(*self, k)));
                    }
                },
                None => {},
            }
            i = i + 1;
        }
        assert(ord.take(i as int) =~= ord);
        if items.len() == 0 {
            None
        } else {
            Some(self.array(items))
        }
    }

    /// The argument definitions of an operation.
    pub fn build_operation_variable_definitions(
        &mut self,
        variable_definitions: &Vec<VariableDefinition>,
    ) -> (k: AstKey)
        ensures
            evolves(*old(self), *final(self)),
            key_means(
                *final(self),
                k,
                operation_variable_definitions_tree(variable_definitions@),
            ),
    {
        let ghost b_start = *self;
        self.check();
        let mut items: Vec<Primitive> = Vec::new();
        let mut i: usize = 0;
        while i < variable_definitions.len()
            invariant
                i <= variable_definitions@.len(),
                evolves(b_start, *self),
                prims_keys_below(items@, arena(*self).len()),
                prims_denote(arena(*self), items@) =~= Seq::new(
                    i as nat,
                    |j: int| local_argument_tree(variable_definitions@[j]),
                ),
            decreases variable_definitions@.len() - i,
        {
            let ghost b0 = *self;
            let ghost items0 = items@;
            let k = self.build_local_argument(&variable_definitions[i]);
            proof {
                lemma_prims_stable(b0, *self, items0);
            }
            items.push(Primitive::Key(k));
            proof {
                assert(prims_denote(arena(*self), items@) =~= prims_denote(
                    arena(*self),
                    items0,
                ).push(local_argument_tree(variable_definitions@[i as int])));
            }
            i = i + 1;
        }
        self.array(items)
    }

    fn build_local_argument(&mut self, def: &VariableDefinition) -> (k: AstKey)
        ensures
            evolves(*old(self), *final(self)),
            key_means(*final(self), k, local_argument_tree(*def)),
    {
        let default_value = match &def.default_value {
            Some(c) => self.build_constant_value(c),
            None => Primitive::Null,
        };
        let mut es: Vec<ObjectEntry> = Vec::new();
        es.push(entry(DEFAULT_VALUE, default_value));
        es.push(entry(KIND, str_prim(LOCAL_ARGUMENT)));
        es.push(entry(NAME, Primitive::String(copy_string(&def.name))));
        let ghost a = arena(*self);
        let k = self.object(es);
        assert(entries_denote(a, es@) =~= seq![
            (DEFAULT_VALUE@, default_value_tree(def.default_value)),
            (KIND@, Tree::Str(LOCAL_ARGUMENT@)),
            (NAME@, Tree::Str(def.name@)),
        ]);
        k
    }

    fn build_root_argument(&mut self, def: &VariableDefinition) -> (k: AstKey)
        ensures
            evolves(*old(self), *final(self)),
            key_means(*final(self), k, root_argument_tree(*def)),
    {
        let mut es: Vec<ObjectEntry> = Vec::new();
        es.push(entry(KIND, str_prim(ROOT_ARGUMENT)));
        es.push(entry(NAME, Primitive::String(copy_string(&def.name))));
        let ghost a = arena(*self);
        let k = self.object(es);
        assert(entries_denote(a, es@) =~= seq![
            (KIND@, Tree::Str(ROOT_ARGUMENT@)),
            (NAME@, Tree::Str(def.name@)),
        ]);
        k
    }

    /// The argument definitions of a fragment: its own variables and the
    /// global variables it uses, sorted by name.
    pub fn build_fragment_variable_definitions(
        &mut self,
        local_variable_definitions: &Vec<VariableDefinition>,
        global_variable_definitions: &Vec<VariableDefinition>,
    ) -> (p: Primitive)
        ensures
            evolves(*old(self), *final(self)),
            means(
                *final(self),
                p,
                fragment_variable_definitions_tree(
                    local_variable_definitions@,
                    global_variable_definitions@,
                ),
            ),
    {
        let ghost b_start = *self;
        self.check();
        let ghost locals = local_variable_definitions@;
        let ghost globals = global_variable_definitions@;
        let ghost all = Seq::new(locals.len(), |i: int| local_argument_tree(locals[i])) + Seq::new(
            globals.len(),
            |i: int| root_argument_tree(globals[i]),
        );
        let mut var_defs: Vec<Primitive> = Vec::new();
        let mut i: usize = 0;
        while i < local_variable_definitions.len()
            invariant
                locals == local_variable_definitions@,
                all == Seq::new(locals.len(), |i: int| local_argument_tree(locals[i])) + Seq::new(
                    globals.len(),
                    |i: int| root_argument_tree(globals[i]),
                ),
                forall|t: int| 0 <= t < var_defs@.len() ==> #[trigger] var_defs@[t] is Key,
                i <= locals.len(),
                evolves(b_start, *self),
                prims_keys_below(var_defs@, arena(*self).len()),
                prims_denote(arena(*self), var_defs@) =~= all.take(i as int),
            decreases locals.len() - i,
        {
            let ghost b0 = *self;
            let ghost defs0 = var_defs@;
            let k = self.build_local_argument(&local_variable_definitions[i]);
            proof {
                lemma_prims_stable(b0, *self, defs0);
            }
            var_defs.push(Primitive::Key(k));
            proof {
                assert(prims_denote(arena(*self), var_defs@) =~= prims_denote(
                    arena(*self),
                    defs0,
                ).push(all[i as int]));
            }
            i = i + 1;
        }
        let mut g: usize = 0;
        while g < global_variable_definitions.len()
            invariant
                locals == local_variable_definitions@,
                globals == global_variable_definitions@,
                all == Seq::new(locals.len(), |i: int| local_argument_tree(locals[i])) + Seq::new(
                    globals.len(),
                    |i: int| root_argument_tree(globals[i]),
                ),
                forall|t: int| 0 <= t < var_defs@.len() ==> #[trigger] var_defs@[t] is Key,
                g <= globals.len(),
                evolves(b_start, *self),
                prims_keys_below(var_defs@, arena(*self).len()),
                prims_denote(arena(*self), var_defs@) =~= all.take(locals.len() + g),
            decreases globals.len() - g,
        {
            let ghost b0 = *self;
            let ghost defs0 = var_defs@;
            let k = self.build_root_argument(&global_variable_definitions[g]);
            proof {
                lemma_prims_stable(b0, *self, defs0);
            }
            var_defs.push(Primitive::Key(k));
            proof {
                assert(all[locals.len() + g] == root_argument_tree(globals[g as int]));
                assert(prims_denote(arena(*self), var_defs@) =~= prims_denote(
                    arena(*self),
                    defs0,
                ).push(all[locals.len() + g]));
            }
            g = g + 1;
        }
        assert(all.take(locals.len() + g) =~= all);
        let mut names: Vec<String> = Vec::new();
        push_var_names(&mut names, local_variable_definitions);
        push_var_names(&mut names, global_variable_definitions);
        let order = name_order_of(&names);
        let ghost names_v = var_names(locals) + var_names(globals);
        proof {
            assert(strs_view(names@) =~= names_v);
            lemma_name_order_bounds(names_v, names_v.len());
        }
        let mut sorted: Vec<Primitive> = Vec::new();
        let mut j: usize = 0;
        while j < order.len()
            invariant
                order@ == name_order(names_v),
                order@.len() == var_defs@.len(),
                forall|t: int| 0 <= t < order@.len() ==> #[trigger] order@[t] < var_defs@.len(),
                j <= order@.len(),
                forall|t: int| 0 <= t < var_defs@.len() ==> #[trigger] var_defs@[t] is Key,
                prims_keys_below(var_defs@, arena(*self).len()),
                prims_keys_below(sorted@, arena(*self).len()),
                prims_denote(arena(*self), var_defs@) == all,
                prims_denote(arena(*self), sorted@) =~= Seq::new(
                    j as nat,
                    |t: int| all[order@[t] as int],
                ),
            decreases order@.len() - j,
        {
            let idx = order[j];
            proof {
                assert(order@[j as int] < var_defs@.len());
                assert(prim_keys_below(var_defs@[idx as int], arena(*self).len()));
            }
            let ghost sorted0 = sorted@;
            sorted.push(copy_primitive_key(&var_defs[idx]));
            proof {
                assert(denote(arena(*self), var_defs@[idx as int]) == prims_denote(arena(*self), var_defs@)[idx as int]);
                assert(prims_denote(arena(*self), sorted@) =~= prims_denote(arena(*self), sorted0).push(all[idx as int]));
            }
            j = j + 1;
        }
        let k = self.array(sorted);
        Primitive::Key(k)
    }
}

/// The `args` value of a node, from the result of `build_arguments`.
pub fn args_prim(args: Option<AstKey>) -> (p: Primitive)
    ensures
        p == match args {
            None => Primitive::SkippableNull,
            Some(k) => Primitive::Key(k),
        },
{
    match args {
        None => Primitive::SkippableNull,
        Some(k) => Primitive::Key(k),
    }
}

/// `p` is the `storageKey` value for field `name` with arguments `arguments`
/// whose array is `args`.
pub open spec fn storage_prim_ok(p: Primitive, name: Seq<char>, args: Option<AstKey>, arguments: Seq<Argument>) -> bool {
    match args {
        None => p is SkippableNull,
        Some(k) => if !args_have_variable(arguments) {
            p is StorageKey && p->StorageKey_0@ == name && p->StorageKey_1 == k
        } else {
            p is SkippableNull
        },
    }
}

/// The `storageKey` value for field `name`, from the result of `build_arguments`.
pub fn storage_key_prim(name: &String, args: Option<AstKey>, arguments: &Vec<Argument>) -> (p: Primitive)
    ensures
        storage_prim_ok(p, name@, args, arguments@),
{
    match args {
        None => Primitive::SkippableNull,
        Some(k) => {
            if is_static_storage_key_available(arguments) {
                Primitive::StorageKey(copy_string(name), k)
            } else {
                Primitive::SkippableNull
            }
        },
    }
}

/// What `args_prim` produces means the node's `args` value.
pub proof fn lemma_args_prim(b: CodegenBuilder, args: Option<AstKey>, arguments: Seq<Argument>)
    requires
        opt_key_means(b, args, arguments_tree(arguments)),
    ensures
        means(
            b,
            match args {
                None => Primitive::SkippableNull,
                Some(k) => Primitive::Key(k),
            },
            args_value_tree(arguments),
        ),
{
}

/// What `args_prim` and `storage_key_prim` produce means what the node's spec says.
pub proof fn lemma_args_prims(
    b: CodegenBuilder,
    args: Option<AstKey>,
    arguments: Seq<Argument>,
    sk: Primitive,
    name: Seq<char>,
)
    requires
        opt_key_means(b, args, arguments_tree(arguments)),
        storage_prim_ok(sk, name, args, arguments),
    ensures
        means(
            b,
            match args {
                None => Primitive::SkippableNull,
                Some(k) => Primitive::Key(k),
            },
            args_value_tree(arguments),
        ),
        means(b, sk, storage_key_tree(name, arguments)),
{
}

/// What key `k` means in `b`'s arena.
pub open spec fn key_tree_of(b: CodegenBuilder, k: AstKey) -> Tree {
    crate::ast::key_tree(arena(b), k.0 as nat)
}

/// A copy of a primitive that is a key.
fn copy_primitive_key(p: &Primitive) -> (r: Primitive)
    requires
        p is Key,
    ensures
        r == *p,
{
    match p {
        Primitive::Key(k) => Primitive::Key(*k),
        _ => Primitive::Null,
    }
}

} // verus!
