//! Tests of the service-layer helpers: rendering an error chain as one
//! string.

use std::error::Error as StdError;
use std::fmt;

use mram_service::service::{lock_error, process_errors};

#[derive(Debug)]
struct RootError {
    message: String,
}

impl fmt::Display for RootError {
    fn fmt(&self, f: &mut fmt::Formatter<'_>) -> fmt::Result {
        f.write_str("RootError: ")?;
        f.write_str(&self.message)
    }
}

impl StdError for RootError {}

#[derive(Debug)]
struct TopError {
    cause: RootError,
    message: String,
}

impl fmt::Display for TopError {
    fn fmt(&self, f: &mut fmt::Formatter<'_>) -> fmt::Result {
        f.write_str("TopError: ")?;
        f.write_str(&self.message)
    }
}

impl StdError for TopError {
    fn source(&self) -> Option<&(dyn StdError + 'static)> {
        Some(&self.cause)
    }
}

/// Walks an error and its causes into their descriptions, in order.
fn description_chain(top: &dyn StdError) -> Vec<String> {
    let mut descriptions = Vec::new();
    let mut current: Option<&dyn StdError> = Some(top);
    while let Some(err) = current {
        descriptions.push(format!("{}", err));
        current = err.source();
    }
    descriptions
}

fn chain() -> TopError {
    TopError {
        cause: RootError {
            message: "root".to_owned(),
        },
        message: "top".to_owned(),
    }
}

#[test]
fn process_errors_default() {
    let chain = chain();

    let errors = process_errors(&description_chain(&chain), ", ");
    assert_eq!(errors, "TopError: top, RootError: root");
}

#[test]
fn process_errors_delim() {
    let chain = chain();

    let errors = process_errors(&description_chain(&chain), "\n");
    assert_eq!(errors, "TopError: top\nRootError: root");
}

#[test]
fn process_errors_single() {
    let errors = process_errors(&vec!["only".to_owned()], ", ");
    assert_eq!(errors, "only");
    let errors = process_errors(&vec![], ", ");
    assert_eq!(errors, "");
}

#[test]
fn lock_error_message() {
    let message = lock_error(());
    assert_eq!(message, "subsystem lock poisoned");
}
