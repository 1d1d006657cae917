use relay_codegen::dependencies::{get_definition_references, get_reachable_ast, visit_selections};
use relay_codegen::syntax::{
    ExecutableDefinition, FragmentDefinition, FragmentSpread, InlineFragment, LinkedField,
    OperationDefinition, ScalarField, Selection,
};

fn spread(name: &str) -> Selection {
    Selection::FragmentSpread(FragmentSpread { name: name.to_string() })
}

fn field(name: &str) -> Selection {
    Selection::ScalarField(ScalarField { name: name.to_string() })
}

fn linked(name: &str, selections: Vec<Selection>) -> Selection {
    Selection::LinkedField(LinkedField { name: name.to_string(), selections })
}

fn inline(selections: Vec<Selection>) -> Selection {
    Selection::InlineFragment(InlineFragment { type_condition: Some("User".to_string()), selections })
}

fn frag(name: &str, selections: Vec<Selection>) -> ExecutableDefinition {
    ExecutableDefinition::Fragment(FragmentDefinition {
        name: name.to_string(),
        type_condition: "User".to_string(),
        selections,
    })
}

fn op(name: Option<&str>, selections: Vec<Selection>) -> ExecutableDefinition {
    ExecutableDefinition::Operation(OperationDefinition {
        name: name.map(|n| n.to_string()),
        selections,
    })
}

fn names_of(defs: &[ExecutableDefinition]) -> Vec<String> {
    defs.iter()
        .map(|d| match d {
            ExecutableDefinition::Operation(o) => o.name.clone().unwrap_or_default(),
            ExecutableDefinition::Fragment(f) => f.name.clone(),
        })
        .collect()
}

fn sorted(mut v: Vec<String>) -> Vec<String> {
    v.sort();
    v
}

#[test]
fn without_base_definitions_the_project_is_unchanged() {
    let project = vec![op(Some("Q"), vec![spread("A")]), frag("A", vec![field("id")])];
    let r = get_reachable_ast(project, vec![]);
    assert_eq!(names_of(&r.definitions), vec!["Q", "A"]);
    assert!(r.base_fragment_names.is_empty());
}

#[test]
fn reachable_base_fragments_are_added_transitively() {
    let project = vec![op(Some("Q"), vec![linked("viewer", vec![spread("A")])])];
    let base = vec![
        frag("C", vec![field("unused")]),
        frag("B", vec![field("id")]),
        op(Some("BaseQuery"), vec![spread("C")]),
        frag("A", vec![inline(vec![spread("B")])]),
    ];
    let r = get_reachable_ast(project, base);
    assert_eq!(names_of(&r.definitions), vec!["Q", "B", "A"]);
    assert_eq!(sorted(r.base_fragment_names.clone()), vec!["A", "B"]);
}

#[test]
fn spreads_of_unknown_fragments_are_ignored() {
    let project = vec![frag("P", vec![spread("Local"), spread("A")])];
    let base = vec![frag("A", vec![spread("Missing")])];
    let r = get_reachable_ast(project, base);
    assert_eq!(names_of(&r.definitions), vec!["P", "A"]);
    assert_eq!(r.base_fragment_names, vec!["A".to_string()]);
}

#[test]
fn cycles_between_base_fragments_terminate() {
    let project = vec![op(Some("Q"), vec![spread("A")])];
    let base = vec![frag("A", vec![spread("B")]), frag("B", vec![spread("A")])];
    let r = get_reachable_ast(project, base);
    assert_eq!(names_of(&r.definitions), vec!["Q", "A", "B"]);
    assert_eq!(sorted(r.base_fragment_names.clone()), vec!["A", "B"]);
}

#[test]
fn nothing_reached_adds_nothing() {
    let project = vec![op(Some("Q"), vec![field("id")])];
    let base = vec![frag("A", vec![field("id")])];
    let r = get_reachable_ast(project, base);
    assert_eq!(names_of(&r.definitions), vec!["Q"]);
    assert!(r.base_fragment_names.is_empty());
}

#[test]
fn visit_collects_nested_spreads() {
    let sels = vec![
        field("id"),
        linked("friends", vec![spread("Friend"), inline(vec![spread("Deep")])]),
        spread("Top"),
    ];
    let mut names = vec!["Already".to_string()];
    visit_selections(&sels, &mut names);
    assert_eq!(sorted(names), vec!["Already", "Deep", "Friend", "Top"]);
}

#[test]
fn references_of_each_definition() {
    let defs = vec![
        op(Some("Q"), vec![spread("A"), linked("viewer", vec![spread("B"), spread("A")])]),
        frag("A", vec![inline(vec![spread("C")])]),
        frag("B", vec![field("id")]),
    ];
    let r = get_definition_references(&defs);
    assert_eq!(r.len(), 3);
    assert_eq!(r[0].name, "Q");
    assert_eq!(sorted(r[0].references.clone()), vec!["A", "B"]);
    assert_eq!(r[1].name, "A");
    assert_eq!(r[1].references, vec!["C".to_string()]);
    assert_eq!(r[2].name, "B");
    assert!(r[2].references.is_empty());
}

#[test]
fn a_later_definition_with_the_same_name_replaces_the_earlier() {
    let defs = vec![frag("A", vec![spread("X")]), frag("A", vec![spread("Y")])];
    let r = get_definition_references(&defs);
    assert_eq!(r.len(), 1);
    assert_eq!(r[0].name, "A");
    assert_eq!(r[0].references, vec!["Y".to_string()]);
}
