use bpftrace_ls::navigation::{choose_definition, map_variable_name, reference_name, DefinitionSource};

fn strings(v: &[&str]) -> Vec<String> {
    v.iter().map(|s| s.to_string()).collect()
}

#[test]
fn map_variable_names() {
    assert_eq!(map_variable_name("@start[tid]"), "@start");
    assert_eq!(map_variable_name("@start"), "@start");
    assert_eq!(map_variable_name("@a[1][2]"), "@a");
    assert_eq!(map_variable_name("[x]"), "");
}

#[test]
fn definition_of_a_macro_call() {
    // `print1(x + y)` inside `macro print2`, with macros print1 and print2 in the file.
    let macros = strings(&["print1", "print2"]);
    assert_eq!(
        choose_definition(Some("print1"), &macros, None, &Vec::new()),
        Some(DefinitionSource::Macro(0))
    );
    assert_eq!(choose_definition(Some("print3"), &macros, None, &Vec::new()), None);
    assert_eq!(choose_definition(None, &macros, None, &Vec::new()), None);
}

#[test]
fn definition_of_a_map_variable() {
    // `delete(@start, tid)`, with `@start[tid] = nsecs();` the one assignment in the file.
    let assignments = strings(&["@start[tid]"]);
    assert_eq!(
        choose_definition(None, &Vec::new(), Some("@start"), &assignments),
        Some(DefinitionSource::MapAssignment(0))
    );
    assert_eq!(choose_definition(None, &Vec::new(), Some("@other"), &assignments), None);

    // The map variable takes the place of a macro of the same name, and the first assignment
    // is the one chosen.
    let macros = strings(&["delete"]);
    let assignments = strings(&["@x", "@start[pid]", "@start[tid]"]);
    assert_eq!(
        choose_definition(Some("delete"), &macros, Some("@start[tid]"), &assignments),
        Some(DefinitionSource::MapAssignment(1))
    );
    assert_eq!(
        choose_definition(Some("delete"), &macros, Some("@y"), &assignments),
        Some(DefinitionSource::Macro(0))
    );
}

#[test]
fn name_whose_references_are_looked_for() {
    assert_eq!(reference_name(Some("foo"), Some("bar")), Some("foo".to_string()));
    assert_eq!(reference_name(Some(""), Some("bar")), Some("bar".to_string()));
    assert_eq!(reference_name(None, Some("bar")), Some("bar".to_string()));
    assert_eq!(reference_name(None, Some("")), None);
    assert_eq!(reference_name(None, None), None);
}
