//! One validation: the cells it is for, its rule, and what to tell the user.

use crate::grid::sheet::validations::validation_rules::ValidationRule;
use crate::selection::Selection;
use vstd::prelude::*;

verus! {

/// How an invalid value is met.
#[derive(Clone, Copy, Debug, PartialEq, Eq, Hash, Structural)]
pub enum ValidationStyle {
    Warning,
    Stop,
    Information,
}

/// What is shown while a validated cell is being edited.
#[derive(Debug, PartialEq, Eq)]
pub struct ValidationMessage {
    pub show: bool,
    pub title: Option<String>,
    pub message: Option<String>,
}

/// What is shown when an invalid value is entered.
#[derive(Debug, PartialEq, Eq)]
pub struct ValidationError {
    pub show: bool,
    pub style: ValidationStyle,
    pub title: Option<String>,
    pub message: Option<String>,
}

impl Default for ValidationMessage {
    fn default() -> (r: Self)
        ensures
            r == (ValidationMessage { show: true, title: None, message: None }),
    {
        ValidationMessage { show: true, title: None, message: None }
    }
}

impl Default for ValidationError {
    fn default() -> (r: Self)
        ensures
            r == (ValidationError {
                show: true,
                style: ValidationStyle::Stop,
                title: None,
                message: None,
            }),
    {
        ValidationError { show: true, style: ValidationStyle::Stop, title: None, message: None }
    }
}

/// A validation of the cells of a selection.
#[derive(Debug, PartialEq, Eq)]
pub struct Validation {
    pub id: u128,
    pub selection: Selection,
    pub rule: ValidationRule,
    pub message: ValidationMessage,
    pub error: ValidationError,
}

impl Clone for ValidationMessage {
    fn clone(&self) -> (r: Self)
        ensures
            r == *self,
    {
        ValidationMessage {
            show: self.show,
            title: crate::grid::code::clone_opt_string(&self.title),
            message: crate::grid::code::clone_opt_string(&self.message),
        }
    }
}

impl Clone for ValidationError {
    fn clone(&self) -> (r: Self)
        ensures
            r == *self,
    {
        ValidationError {
            show: self.show,
            style: self.style,
            title: crate::grid::code::clone_opt_string(&self.title),
            message: crate::grid::code::clone_opt_string(&self.message),
        }
    }
}

impl Clone for Validation {
    fn clone(&self) -> (r: Self)
        ensures
            r.alike(*self),
    {
        Validation {
            id: self.id,
            selection: self.selection.clone(),
            rule: self.rule.clone(),
            message: self.message.clone(),
            error: self.error.clone(),
        }
    }
}

impl Validation {
    /// Both validations have the same id, are for the same cells, and ask
    /// and say the same.
    pub open spec fn alike(self, other: Validation) -> bool {
        &&& self.id == other.id
        &&& self.selection.alike(other.selection)
        &&& self.rule.alike(other.rule)
        &&& self.message == other.message
        &&& self.error == other.error
    }
}

} // verus!
