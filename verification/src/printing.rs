//! The choices that printing makes, apart from laying text out.
use vstd::prelude::*;

use crate::executable::ExecutableDocument;
use crate::executable::contents::ExecutableContents;
use crate::executable::storage::OperationType;

verus! {

/// How a document is printed.
#[derive(Clone, Copy, Debug, PartialEq, Eq, Structural)]
pub struct PrettyOptions {
    /// Print arguments and variables sorted by name.
    pub sort: bool,
}

impl Default for PrettyOptions {
    fn default() -> (options: Self)
        ensures
            options.sort == false,
    {
        PrettyOptions { sort: false }
    }
}

/// A node to print, with the options to print it with.
pub struct NodeDisplay<T>(pub T, pub PrettyOptions);

impl<T> NodeDisplay<T> {
    /// Another node, printed with the same options.
    pub fn with_node<N>(&self, node: N) -> (display: NodeDisplay<N>)
        ensures
            display.0 == node,
            display.1 == self.1,
    {
        NodeDisplay(node, self.1)
    }

    /// A function that pairs nodes with the same options.
    pub fn mapper<N>(&self) -> (f: impl Fn(N) -> NodeDisplay<N>)
        ensures
            forall|node: N| call_requires(f, (node,)),
            forall|node: N, display: NodeDisplay<N>|
                call_ensures(f, (node,), display) ==> display.0 == node && display.1 == self.1,
    {
        let options = self.1;
        move |node: N| -> (display: NodeDisplay<N>)
            ensures
                display.0 == node,
                display.1 == options,
            { NodeDisplay(node, options) }
    }
}

/// Prints a document.
pub struct PrettyPrinter<'a> {
    pub document: &'a ExecutableDocument,
    pub options: PrettyOptions,
}

impl<'a> PrettyPrinter<'a> {
    pub fn new_executable(document: &'a ExecutableDocument) -> (printer: Self)
        ensures
            printer.document == document,
            printer.options.sort == false,
    {
        PrettyPrinter { document, options: PrettyOptions::default() }
    }

    /// The same printer, sorting arguments and variables by name.
    pub fn sorted(self) -> (printer: Self)
        ensures
            printer.document == self.document,
            printer.options.sort == true,
    {
        let mut printer = self;
        printer.options.sort = true;
        printer
    }
}

/// A document whose only definition-level content is one anonymous query
/// without variables or directives prints as its bare selection set.
pub open spec fn prints_in_short_form(contents: ExecutableContents) -> bool {
    &&& contents.operation_ids().len() == 1
    &&& contents.operation_ids()[0].index() < contents.operations.len()
    &&& {
        let op = contents.operations[contents.operation_ids()[0].index() as int];
        &&& op.name is None
        &&& op.operation_type == OperationType::Query
        &&& op.directives.count() == 0
        &&& op.variable_definitions.count() == 0
    }
}

/// Whether `document` prints in short form; see [`prints_in_short_form`].
pub fn use_short_form(document: &ExecutableDocument) -> (short: bool)
    ensures
        short == prints_in_short_form(document@),
{
    let operations = document.operation_ids();
    if operations.len() != 1 {
        return false;
    }
    if operations[0].get() >= document.operation_count() {
        return false;
    }
    let op = document.operation(operations[0]);
    op.name.is_none() && op.operation_type == OperationType::Query && op.directives.len() == 0
        && op.variable_definitions.len() == 0
}

} // verus!
