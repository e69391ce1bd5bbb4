//! Texts shown for registry errors.

use vstd::prelude::*;

use crate::provider_validation::adapter::source::{append_decimal, decimal_text};
use crate::registry::snapshot::{ContributionKind, RegistryError, RegistryFault};

verus! {

/// The name of a kind.
pub open spec fn kind_text(kind: ContributionKind) -> Seq<char> {
    match kind {
        ContributionKind::Tool => "Tool"@,
        ContributionKind::Command => "Command"@,
        ContributionKind::Prompt => "Prompt"@,
        ContributionKind::Resource => "Resource"@,
        ContributionKind::View => "View"@,
        ContributionKind::Timeline => "Timeline"@,
        ContributionKind::Modal => "Modal"@,
        ContributionKind::Widget => "Widget"@,
        ContributionKind::EventSubscription => "EventSubscription"@,
    }
}

/// The name of a kind.
pub fn kind_name(kind: ContributionKind) -> (name: &'static str)
    ensures
        name@ == kind_text(kind),
{
    match kind {
        ContributionKind::Tool => "Tool",
        ContributionKind::Command => "Command",
        ContributionKind::Prompt => "Prompt",
        ContributionKind::Resource => "Resource",
        ContributionKind::View => "View",
        ContributionKind::Timeline => "Timeline",
        ContributionKind::Modal => "Modal",
        ContributionKind::Widget => "Widget",
        ContributionKind::EventSubscription => "EventSubscription",
    }
}

/// The text shown for an error.
pub open spec fn fault_text(fault: RegistryFault) -> Seq<char> {
    match fault {
        RegistryFault::ProvenanceMismatch =>
            "plugin registration provenance does not match its manifest"@,
        RegistryFault::PluginAlreadyRegistered(id) => "plugin "@ + id + " is already registered"@,
        RegistryFault::PluginNotRegistered(id) => "plugin "@ + id + " is not registered"@,
        RegistryFault::DuplicateMutation(id) => "plugin "@ + id
            + " appears more than once in one registry transaction"@,
        RegistryFault::UntrustedPlugin(id) => "plugin "@ + id
            + " is untrusted and cannot activate contributions"@,
        RegistryFault::InvalidContribution => "plugin contribution failed validation"@,
        RegistryFault::Collision { kind, name } => kind_text(kind)
            + " contribution name collision for "@ + name,
        RegistryFault::InvalidToolBinding(name) => "host toolBinding for "@ + name
            + " does not select a colliding owner"@,
        RegistryFault::StaleToolBinding(name) => "host toolBinding for "@ + name
            + " is stale or unnecessary"@,
        RegistryFault::NotValidated => "registry transaction must be validated before commit"@,
        RegistryFault::InvalidTransactionState =>
            "registry transaction is not in the required state"@,
        RegistryFault::GenerationConflict {
            expected,
            actual,
        } => "registry generation conflict (expected "@ + decimal_text(expected as nat)
            + ", actual "@ + decimal_text(actual as nat) + ")"@,
        RegistryFault::GenerationExhausted => "plugin registry generation is exhausted"@,
    }
}

/// A text between two others.
pub fn between(before: &str, middle: &str, after: &str) -> (text: String)
    ensures
        text@ == before@ + middle@ + after@,
{
    let mut text = before.to_owned();
    text.push_str(middle);
    text.push_str(after);
    text
}

impl RegistryError {
    /// The text shown for the error.
    pub fn message(&self) -> (text: String)
        ensures
            text@ == fault_text(self@),
    {
        match self {
            RegistryError::ProvenanceMismatch =>
                "plugin registration provenance does not match its manifest".to_owned(),
            RegistryError::PluginAlreadyRegistered(id) => between(
                "plugin ",
                id.text.as_str(),
                " is already registered",
            ),
            RegistryError::PluginNotRegistered(id) => between(
                "plugin ",
                id.text.as_str(),
                " is not registered",
            ),
            RegistryError::DuplicateMutation(id) => between(
                "plugin ",
                id.text.as_str(),
                " appears more than once in one registry transaction",
            ),
            RegistryError::UntrustedPlugin(id) => between(
                "plugin ",
                id.text.as_str(),
                " is untrusted and cannot activate contributions",
            ),
            RegistryError::InvalidContribution =>
                "plugin contribution failed validation".to_owned(),
            RegistryError::Collision { kind, name } => between(
                kind_name(*kind),
                " contribution name collision for ",
                name.text.as_str(),
            ),
            RegistryError::InvalidToolBinding(name) => between(
                "host toolBinding for ",
                name.text.as_str(),
                " does not select a colliding owner",
            ),
            RegistryError::StaleToolBinding(name) => between(
                "host toolBinding for ",
                name.text.as_str(),
                " is stale or unnecessary",
            ),
            RegistryError::NotValidated =>
                "registry transaction must be validated before commit".to_owned(),
            RegistryError::InvalidTransactionState =>
                "registry transaction is not in the required state".to_owned(),
            RegistryError::GenerationConflict { expected, actual } => {
                let mut text = "registry generation conflict (expected ".to_owned();
                append_decimal(*expected, &mut text);
                text.push_str(", actual ");
                append_decimal(*actual, &mut text);
                text.push_str(")");
                text
            },
            RegistryError::GenerationExhausted =>
                "plugin registry generation is exhausted".to_owned(),
        }
    }
}

} // verus!
