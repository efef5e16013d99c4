//! Collecting the places where a type hint is shown.
use vstd::prelude::*;

verus! {

/// Visitor state that collects, for every variable declared without a type
/// annotation, the byte offset where its type hint goes (three bytes before
/// the initial expression) and the id of the variable.
pub struct TypeHintCollector {
    pub type_hints: Vec<(usize, usize)>,
}

impl TypeHintCollector {
    /// A collector with no hints.
    pub fn new() -> (c: Self)
        ensures
            c.type_hints@.len() == 0,
    {
        TypeHintCollector { type_hints: Vec::new() }
    }

    /// Visits a variable declaration. A declaration without a type
    /// annotation adds a hint; the children of every declaration are visited
    /// afterwards. A declaration without a type annotation has an id and its
    /// initial expression starts at byte 3 or later.
    pub fn visit_variable_declaration(
        &mut self,
        has_type_annotation: bool,
        init_expression_start: usize,
        decl_id: Option<usize>,
    )
        requires
            !has_type_annotation ==> init_expression_start >= 3 && decl_id is Some,
        ensures
            final(self).type_hints@ == if has_type_annotation {
                old(self).type_hints@
            } else {
                old(self).type_hints@.push(((init_expression_start - 3) as usize, decl_id->0))
            },
    {
        if !has_type_annotation {
            match decl_id {
                Some(id) => {
                    self.type_hints.push((init_expression_start - 3, id));
                },
                None => {},
            }
        }
    }
}

} // verus!
