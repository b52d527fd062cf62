//! Which definition a "go to definition" request leads to, and which name a "find references"
//! request looks for, once the syntax tree has given the names around the cursor.
use vstd::prelude::*;

use crate::text::{find_char, first_index_of, str_chars, str_eq, string_from_chars};
use vstd::string::StringExecFns;

verus! {

/// The name of a map variable as written in an access such as `@start[tid]`: the text before
/// the first `[`, or all of it.
pub open spec fn spec_map_variable_name(full: Seq<char>) -> Seq<char> {
    match first_index_of(full, '[') {
        Some(k) => full.take(k),
        None => full,
    }
}

/// The name of the map variable written as `full`.
pub fn map_variable_name(full: &str) -> (r: String)
    ensures
        r@ == spec_map_variable_name(full@),
{
    let chars = str_chars(full);
    match find_char(&chars, '[') {
        Some(k) => {
            proof {
                crate::text::lemma_first_index_of(chars@, '[');
            }
            let r = string_from_chars(&chars, 0, k);
            assert(r@ =~= full@.take(k as int));
            r
        },
        None => {
            let r = string_from_chars(&chars, 0, chars.len());
            assert(r@ =~= full@);
            r
        },
    }
}

/// The index of the first of `names` equal to `name`.
pub open spec fn spec_first_equal(names: Seq<Seq<char>>, name: Seq<char>) -> Option<int>
    decreases names.len(),
{
    if names.len() == 0 {
        None
    } else if names[0] == name {
        Some(0)
    } else {
        match spec_first_equal(names.drop_first(), name) {
            Some(k) => Some(k + 1),
            None => None,
        }
    }
}

proof fn lemma_first_equal(names: Seq<Seq<char>>, name: Seq<char>)
    ensures
        spec_first_equal(names, name) matches Some(k) ==> 0 <= k < names.len() && names[k] == name
            && forall|j: int| 0 <= j < k ==> names[j] != name,
        spec_first_equal(names, name) is None ==> forall|j: int| 0 <= j < names.len() ==> names[j] != name,
    decreases names.len(),
{
    if names.len() > 0 && names[0] != name {
        lemma_first_equal(names.drop_first(), name);
        assert forall|j: int| 1 <= j < names.len() implies names[j] == names.drop_first()[j - 1] by {}
    }
}

/// The views of a sequence of strings.
pub open spec fn names_view(v: Seq<String>) -> Seq<Seq<char>> {
    v.map_values(|t: String| t@)
}

/// The map variable names of the accesses `v`.
pub open spec fn map_names_view(v: Seq<String>) -> Seq<Seq<char>> {
    v.map_values(|t: String| spec_map_variable_name(t@))
}

fn first_equal(names: &Vec<String>, name: &str, as_map_variable: bool) -> (r: Option<usize>)
    ensures
        ({
            let view = if as_map_variable {
                map_names_view(names@)
            } else {
                names_view(names@)
            };
            match r {
                Some(k) => spec_first_equal(view, name@) == Some(k as int),
                None => spec_first_equal(view, name@) is None,
            }
        }),
{
    let ghost view = if as_map_variable {
        map_names_view(names@)
    } else {
        names_view(names@)
    };
    proof {
        lemma_first_equal(view, name@);
    }
    let mut i: usize = 0;
    while i < names.len()
        invariant
            i <= names@.len(),
            view == (if as_map_variable {
                map_names_view(names@)
            } else {
                names_view(names@)
            }),
            view.len() == names@.len(),
            forall|j: int| 0 <= j < i ==> view[j] != name@,
            spec_first_equal(view, name@) matches Some(k) ==> 0 <= k < view.len() && view[k] == name@
                && forall|j: int| 0 <= j < k ==> view[j] != name@,
            spec_first_equal(view, name@) is None ==> forall|j: int| 0 <= j < view.len() ==> view[j] != name@,
        decreases names.len() - i,
    {
        let matches = if as_map_variable {
            let n = map_variable_name(names[i].as_str());
            str_eq(n.as_str(), name)
        } else {
            str_eq(names[i].as_str(), name)
        };
        if matches {
            assert(view[i as int] == name@);
            return Some(i);
        }
        i = i + 1;
    }
    None
}

/// Where a definition was found: the macro with the given index, or the assignment to a map
/// variable with the given index.
#[derive(Debug, Clone, Copy, PartialEq, Eq, Structural)]
pub enum DefinitionSource {
    Macro(usize),
    MapAssignment(usize),
}

/// The definition that the cursor leads to: the first macro named as the function called at the
/// cursor, if any; but the first assignment to the map variable at the cursor, when there is
/// one, takes its place.
pub open spec fn spec_choose_definition(
    call: Option<Seq<char>>,
    macros: Seq<Seq<char>>,
    map_var: Option<Seq<char>>,
    assignments: Seq<Seq<char>>,
) -> Option<DefinitionSource> {
    let from_macro = match call {
        Some(c) => match spec_first_equal(macros, c) {
            Some(i) => Some(DefinitionSource::Macro(i as usize)),
            None => None,
        },
        None => None,
    };
    match map_var {
        Some(v) => match spec_first_equal(assignments, spec_map_variable_name(v)) {
            Some(j) => Some(DefinitionSource::MapAssignment(j as usize)),
            None => from_macro,
        },
        None => from_macro,
    }
}

/// The definition that the cursor leads to, from the name of the function called at the cursor,
/// the names of the macros in the file, the map variable access at the cursor and the map
/// variable accesses that are assigned to, in the order of the file.
pub fn choose_definition(
    call: Option<&str>,
    macros: &Vec<String>,
    map_var: Option<&str>,
    assignments: &Vec<String>,
) -> (r: Option<DefinitionSource>)
    ensures
        r == spec_choose_definition(
            match call {
                Some(c) => Some(c@),
                None => None,
            },
            names_view(macros@),
            match map_var {
                Some(v) => Some(v@),
                None => None,
            },
            map_names_view(assignments@),
        ),
{
    let from_macro = match call {
        Some(c) => match first_equal(macros, c, false) {
            Some(i) => Some(DefinitionSource::Macro(i)),
            None => None,
        },
        None => None,
    };
    match map_var {
        Some(v) => {
            let name = map_variable_name(v);
            match first_equal(assignments, name.as_str(), true) {
                Some(j) => Some(DefinitionSource::MapAssignment(j)),
                None => from_macro,
            }
        },
        None => from_macro,
    }
}

/// The definition chosen is one that the cursor names: a macro whose name is the called name,
/// the first such in the file, and only when no assignment to the map variable at the cursor
/// exists; or the first assignment to a map variable of the same name as the one at the cursor.
/// Nothing is chosen only when neither exists.
pub proof fn lemma_definition_is_named_at_cursor(
    call: Option<Seq<char>>,
    macros: Seq<Seq<char>>,
    map_var: Option<Seq<char>>,
    assignments: Seq<Seq<char>>,
)
    requires
        macros.len() <= usize::MAX,
        assignments.len() <= usize::MAX,
    ensures
        ({
            let no_assignment = match map_var {
                None => true,
                Some(v) => forall|j: int| 0 <= j < assignments.len() ==> assignments[j] != spec_map_variable_name(v),
            };
            let no_macro = match call {
                None => true,
                Some(c) => forall|i: int| 0 <= i < macros.len() ==> macros[i] != c,
            };
            match spec_choose_definition(call, macros, map_var, assignments) {
                Some(DefinitionSource::Macro(i)) => {
                    &&& call matches Some(c)
                    &&& i < macros.len()
                    &&& macros[i as int] == c
                    &&& forall|j: int| 0 <= j < i ==> macros[j] != c
                    &&& no_assignment
                },
                Some(DefinitionSource::MapAssignment(j)) => {
                    &&& map_var matches Some(v)
                    &&& j < assignments.len()
                    &&& assignments[j as int] == spec_map_variable_name(v)
                    &&& forall|k: int| 0 <= k < j ==> assignments[k] != spec_map_variable_name(v)
                },
                None => no_macro && no_assignment,
            }
        }),
{
    if let Some(c) = call {
        lemma_first_equal(macros, c);
    }
    if let Some(v) = map_var {
        lemma_first_equal(assignments, spec_map_variable_name(v));
    }
}

/// The macro whose references are looked for: the one defined at the cursor, else the function
/// called at the cursor; an empty name counts as none.
pub open spec fn spec_reference_name(defined: Option<Seq<char>>, called: Option<Seq<char>>) -> Option<Seq<char>> {
    match defined {
        Some(d) if d.len() > 0 => Some(d),
        _ => match called {
            Some(c) if c.len() > 0 => Some(c),
            _ => None,
        },
    }
}

/// The macro whose references are looked for.
pub fn reference_name(defined: Option<&str>, called: Option<&str>) -> (r: Option<String>)
    ensures
        match r {
            Some(s) => spec_reference_name(
                match defined {
                    Some(d) => Some(d@),
                    None => None,
                },
                match called {
                    Some(c) => Some(c@),
                    None => None,
                },
            ) == Some(s@),
            None => spec_reference_name(
                match defined {
                    Some(d) => Some(d@),
                    None => None,
                },
                match called {
                    Some(c) => Some(c@),
                    None => None,
                },
            ) is None,
        },
{
    if let Some(d) = defined {
        if !d.is_empty() {
            return Some(String::from_str(d));
        }
    }
    if let Some(c) = called {
        if !c.is_empty() {
            return Some(String::from_str(c));
        }
    }
    None
}

} // verus!
