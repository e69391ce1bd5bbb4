//! Plain values of plugin manifests.
//!
//! Manifests are parsed and checked elsewhere; these types hold what the
//! registry reads of them, together with the answers of those checks.

use vstd::prelude::*;

verus! {

/// The identifier of a plugin.
#[derive(Debug, Clone, PartialEq, Eq)]
pub struct PluginId {
    pub text: String,
}

/// The name or identifier of a contribution.
#[derive(Debug, Clone, PartialEq, Eq)]
pub struct Identifier {
    pub text: String,
}

/// Where a plugin comes from.
#[derive(Debug, Clone, PartialEq, Eq)]
pub struct Provenance {
    pub plugin_id: PluginId,
    pub version: String,
    /// Whether the plugin may activate contributions.
    pub trusted: bool,
}

/// A contribution of a plugin.
#[derive(Debug, Clone, PartialEq, Eq)]
pub struct Descriptor {
    /// The name that is unique among contributions of its kind.
    pub name: Identifier,
    /// Where the owner of the manifest finds the rest of the descriptor.
    pub handle: u64,
}

/// The contributions of a plugin by kind.
#[derive(Debug, Clone, PartialEq, Eq)]
pub struct ContributionSet {
    pub tools: Vec<Descriptor>,
    pub commands: Vec<Descriptor>,
    pub prompts: Vec<Descriptor>,
    pub resources: Vec<Descriptor>,
    pub views: Vec<Descriptor>,
    pub timelines: Vec<Descriptor>,
    pub modals: Vec<Descriptor>,
    pub widgets: Vec<Descriptor>,
    pub event_subscriptions: Vec<Descriptor>,
}

/// A parsed manifest.
#[derive(Debug, Clone, PartialEq, Eq)]
pub struct PluginManifest {
    pub id: PluginId,
    pub version: String,
    pub contributions: ContributionSet,
    /// Whether every contribution passed the checks against the root and the
    /// capabilities of the plugin.
    pub contributions_valid: bool,
}

/// A copy of a plugin identifier.
pub fn copy_plugin_id(id: &PluginId) -> (copy: PluginId)
    ensures
        copy == *id,
{
    PluginId { text: id.text.clone() }
}

/// A copy of a provenance.
pub fn copy_provenance(provenance: &Provenance) -> (copy: Provenance)
    ensures
        copy == *provenance,
{
    Provenance {
        plugin_id: copy_plugin_id(&provenance.plugin_id),
        version: provenance.version.clone(),
        trusted: provenance.trusted,
    }
}

/// A copy of a descriptor.
pub fn copy_descriptor(descriptor: &Descriptor) -> (copy: Descriptor)
    ensures
        copy == *descriptor,
{
    Descriptor {
        name: Identifier { text: descriptor.name.text.clone() },
        handle: descriptor.handle,
    }
}

} // verus!
