//! Finding where a variable is declared.
use vstd::prelude::*;

verus! {

/// A byte range `start..end` of a file.
#[derive(Clone, Copy, Debug, PartialEq, Eq, Structural)]
pub struct Span {
    pub start: usize,
    pub end: usize,
}

/// Visitor state that looks for the declaration of the variable `var_id`
/// and keeps the span of the declaration it finds.
pub struct VariableDeclarationFinder {
    pub var_id: usize,
    pub variable_declaration_position: Option<Span>,
}

impl VariableDeclarationFinder {
    /// A finder for the variable `var_id` that has found nothing yet.
    pub fn new(var_id: usize) -> (f: Self)
        ensures
            f.var_id == var_id,
            f.variable_declaration_position is None,
    {
        VariableDeclarationFinder { var_id, variable_declaration_position: None }
    }

    /// Visits a variable declaration with id `decl_id` that spans `span`.
    /// The declaration of the variable sought is recorded and its children
    /// are not visited; any other declaration leaves the finder as it was,
    /// and its children are to be visited. Returns whether to visit them.
    pub fn visit_variable_declaration(&mut self, decl_id: Option<usize>, span: Span) -> (visit_children: bool)
        ensures
            final(self).var_id == old(self).var_id,
            decl_id == Some(old(self).var_id) ==> final(self).variable_declaration_position == Some(span)
                && !visit_children,
            decl_id != Some(old(self).var_id) ==> final(self).variable_declaration_position
                == old(self).variable_declaration_position && visit_children,
    {
        let matches = match decl_id {
            Some(id) => id == self.var_id,
            None => false,
        };
        if matches {
            self.variable_declaration_position = Some(span);
            false
        } else {
            true
        }
    }
}

} // verus!
