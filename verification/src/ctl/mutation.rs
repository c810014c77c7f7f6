//! Kinds of mutation, surviving mutants, and the summary of a mutation run.

use crate::text::str_eq;
use vstd::prelude::*;

verus! {

/// The kind of change a mutant made.
#[derive(Debug, PartialEq, Eq, Hash)]
pub enum MutationKind {
    Arithmetic,
    Boundary,
    NegateCondition,
    VoidReturnValue,
    ReplaceWithDefault,
    ReplaceWithLiteral,
    ReplaceOperator,
    RemoveStmt,
    UnwrapToExpect,
    Other(String),
}

/// A mutation kind as a plain value.
pub enum MutationKindView {
    Arithmetic,
    Boundary,
    NegateCondition,
    VoidReturnValue,
    ReplaceWithDefault,
    ReplaceWithLiteral,
    ReplaceOperator,
    RemoveStmt,
    UnwrapToExpect,
    Other(Seq<char>),
}

impl View for MutationKind {
    type V = MutationKindView;

    open spec fn view(&self) -> MutationKindView {
        match self {
            MutationKind::Arithmetic => MutationKindView::Arithmetic,
            MutationKind::Boundary => MutationKindView::Boundary,
            MutationKind::NegateCondition => MutationKindView::NegateCondition,
            MutationKind::VoidReturnValue => MutationKindView::VoidReturnValue,
            MutationKind::ReplaceWithDefault => MutationKindView::ReplaceWithDefault,
            MutationKind::ReplaceWithLiteral => MutationKindView::ReplaceWithLiteral,
            MutationKind::ReplaceOperator => MutationKindView::ReplaceOperator,
            MutationKind::RemoveStmt => MutationKindView::RemoveStmt,
            MutationKind::UnwrapToExpect => MutationKindView::UnwrapToExpect,
            MutationKind::Other(s) => MutationKindView::Other(s@),
        }
    }
}

/// The kind that a cargo-mutants operator name denotes; unknown names are kept as `Other`.
pub open spec fn spec_kind_from_name(name: Seq<char>) -> MutationKindView {
    if name == "replace_arithmetic_operator"@ {
        MutationKindView::Arithmetic
    } else if name == "replace_boundary"@ {
        MutationKindView::Boundary
    } else if name == "negate_condition"@ {
        MutationKindView::NegateCondition
    } else if name == "void_return_value"@ {
        MutationKindView::VoidReturnValue
    } else if name == "replace_with_default"@ {
        MutationKindView::ReplaceWithDefault
    } else if name == "replace_with_literal"@ {
        MutationKindView::ReplaceWithLiteral
    } else if name == "replace_operator"@ {
        MutationKindView::ReplaceOperator
    } else if name == "remove_statement"@ {
        MutationKindView::RemoveStmt
    } else if name == "unwrap_to_expect"@ {
        MutationKindView::UnwrapToExpect
    } else {
        MutationKindView::Other(name)
    }
}

impl MutationKind {
    pub fn from_cargo_mutants_name(name: &str) -> (r: Self)
        ensures
            r@ == spec_kind_from_name(name@),
    {
        if str_eq(name, "replace_arithmetic_operator") {
            MutationKind::Arithmetic
        } else if str_eq(name, "replace_boundary") {
            MutationKind::Boundary
        } else if str_eq(name, "negate_condition") {
            MutationKind::NegateCondition
        } else if str_eq(name, "void_return_value") {
            MutationKind::VoidReturnValue
        } else if str_eq(name, "replace_with_default") {
            MutationKind::ReplaceWithDefault
        } else if str_eq(name, "replace_with_literal") {
            MutationKind::ReplaceWithLiteral
        } else if str_eq(name, "replace_operator") {
            MutationKind::ReplaceOperator
        } else if str_eq(name, "remove_statement") {
            MutationKind::RemoveStmt
        } else if str_eq(name, "unwrap_to_expect") {
            MutationKind::UnwrapToExpect
        } else {
            MutationKind::Other(String::from_str(name))
        }
    }
}

impl Clone for MutationKind {
    fn clone(&self) -> (r: Self)
        ensures
            r == *self,
    {
        match self {
            MutationKind::Arithmetic => MutationKind::Arithmetic,
            MutationKind::Boundary => MutationKind::Boundary,
            MutationKind::NegateCondition => MutationKind::NegateCondition,
            MutationKind::VoidReturnValue => MutationKind::VoidReturnValue,
            MutationKind::ReplaceWithDefault => MutationKind::ReplaceWithDefault,
            MutationKind::ReplaceWithLiteral => MutationKind::ReplaceWithLiteral,
            MutationKind::ReplaceOperator => MutationKind::ReplaceOperator,
            MutationKind::RemoveStmt => MutationKind::RemoveStmt,
            MutationKind::UnwrapToExpect => MutationKind::UnwrapToExpect,
            MutationKind::Other(s) => MutationKind::Other(s.clone()),
        }
    }
}

/// A mutant that the tests did not catch.
#[derive(Debug)]
pub struct SurvivingMutant {
    pub file_path: String,
    pub line: u32,
    pub col_start: Option<u32>,
    pub col_end: Option<u32>,
    pub mutation_type: MutationKind,
    pub replacement: String,
    pub original: String,
    pub diff_hunk: Option<String>,
}

impl Clone for SurvivingMutant {
    fn clone(&self) -> (r: Self)
        ensures
            r == *self,
    {
        SurvivingMutant {
            file_path: self.file_path.clone(),
            line: self.line,
            col_start: self.col_start,
            col_end: self.col_end,
            mutation_type: self.mutation_type.clone(),
            replacement: self.replacement.clone(),
            original: self.original.clone(),
            diff_hunk: match &self.diff_hunk {
                Some(h) => Some(h.clone()),
                None => None,
            },
        }
    }
}

/// The outcome of a mutation run: the surviving mutants and the counts per outcome.
#[derive(Debug, Clone)]
pub struct MutationReport {
    pub mutants: Vec<SurvivingMutant>,
    pub total: usize,
    pub survived: usize,
    pub killed: usize,
    pub timeout: usize,
}

impl MutationReport {
    /// A report of a run with no mutants.
    pub fn empty() -> (r: Self)
        ensures
            r.mutants@.len() == 0,
            r.total == 0,
            r.survived == 0,
            r.killed == 0,
            r.timeout == 0,
    {
        MutationReport { mutants: Vec::new(), total: 0, survived: 0, killed: 0, timeout: 0 }
    }
}

} // verus!
