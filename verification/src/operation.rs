//! The operation selectors: the tagged unions over the operations the
//! command line can name, matched once at the boundary by the
//! surrounding program.

use vstd::prelude::*;
use crate::errors::TarError;
use vstd::string::StringExecFns;

verus! {

/// Compares two string slices by their characters.
pub fn str_eq(a: &str, b: &str) -> (r: bool)
    ensures
        r == (a@ == b@),
{
    let sa = a.to_owned();
    let sb = b.to_owned();
    sa == sb
}

/// The operation names the command line accepts.
#[derive(Debug, Clone, Copy, PartialEq, Eq, Structural)]
pub enum Operation {
    Concatenate,
    Create,
    Diff,
    List,
    Append,
    Update,
    Extract,
}

/// The operation a selector string names, where it names one.
pub open spec fn operation_of(s: Seq<char>) -> Option<Operation> {
    if s == "concate"@ {
        Some(Operation::Concatenate)
    } else if s == "create"@ {
        Some(Operation::Create)
    } else if s == "diff"@ {
        Some(Operation::Diff)
    } else if s == "list"@ {
        Some(Operation::List)
    } else if s == "append"@ {
        Some(Operation::Append)
    } else if s == "update"@ {
        Some(Operation::Update)
    } else if s == "extract"@ {
        Some(Operation::Extract)
    } else {
        None
    }
}

impl Operation {
    /// Maps a selector string to its operation; an unknown selector is
    /// an operation error naming the value.
    pub fn try_from(value: &str) -> (r: Result<Operation, TarError>)
        ensures
            match operation_of(value@) {
                Some(op) => r matches Ok(got) && got == op,
                None => r matches Err(e) && e matches TarError::TarOperationError(m) && m@
                    == "Invalid operation selected: "@ + value@,
            },
    {
        if str_eq(value, "concate") {
            Ok(Operation::Concatenate)
        } else if str_eq(value, "create") {
            Ok(Operation::Create)
        } else if str_eq(value, "diff") {
            Ok(Operation::Diff)
        } else if str_eq(value, "list") {
            Ok(Operation::List)
        } else if str_eq(value, "append") {
            Ok(Operation::Append)
        } else if str_eq(value, "update") {
            Ok(Operation::Update)
        } else if str_eq(value, "extract") {
            Ok(Operation::Extract)
        } else {
            Err(
                TarError::TarOperationError(
                    "Invalid operation selected: ".to_owned().concat(value),
                ),
            )
        }
    }
}

/// The operation names the command line accepts, as the operations
/// module groups them.
#[derive(Debug, Clone, Copy, PartialEq, Eq, Structural)]
pub enum OperationKind {
    Concatenate,
    Create,
    Diff,
    List,
    Append,
    Update,
    Extract,
}

/// The operation kind a selector string names, where it names one.
pub open spec fn operation_kind_of(s: Seq<char>) -> Option<OperationKind> {
    if s == "concate"@ {
        Some(OperationKind::Concatenate)
    } else if s == "create"@ {
        Some(OperationKind::Create)
    } else if s == "diff"@ {
        Some(OperationKind::Diff)
    } else if s == "list"@ {
        Some(OperationKind::List)
    } else if s == "append"@ {
        Some(OperationKind::Append)
    } else if s == "update"@ {
        Some(OperationKind::Update)
    } else if s == "extract"@ {
        Some(OperationKind::Extract)
    } else {
        None
    }
}

impl OperationKind {
    /// Maps a selector string to its operation kind; an unknown
    /// selector is an operation error naming the value.
    pub fn try_from(value: &str) -> (r: Result<OperationKind, TarError>)
        ensures
            match operation_kind_of(value@) {
                Some(op) => r matches Ok(got) && got == op,
                None => r matches Err(e) && e matches TarError::TarOperationError(m) && m@
                    == "Invalid operation selected: "@ + value@,
            },
    {
        if str_eq(value, "concate") {
            Ok(OperationKind::Concatenate)
        } else if str_eq(value, "create") {
            Ok(OperationKind::Create)
        } else if str_eq(value, "diff") {
            Ok(OperationKind::Diff)
        } else if str_eq(value, "list") {
            Ok(OperationKind::List)
        } else if str_eq(value, "append") {
            Ok(OperationKind::Append)
        } else if str_eq(value, "update") {
            Ok(OperationKind::Update)
        } else if str_eq(value, "extract") {
            Ok(OperationKind::Extract)
        } else {
            Err(
                TarError::TarOperationError(
                    "Invalid operation selected: ".to_owned().concat(value),
                ),
            )
        }
    }
}

} // verus!
