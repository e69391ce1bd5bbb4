//! Host-owned bindings that settle collisions of tool names.

use vstd::prelude::*;

use crate::name_map::NameMap;
use crate::plugin_api::PluginId;

verus! {

/// Version of the bindings format.
pub const HOST_BINDINGS_VERSION: u32 = 1;

/// One exact owner selected for a colliding tool name.
#[derive(Debug, Clone, PartialEq, Eq)]
pub struct ToolBindingTarget {
    pub plugin_id: PluginId,
    pub version: String,
}

impl ToolBindingTarget {
    /// The selected plugin.
    pub fn plugin_id(&self) -> (id: &PluginId)
        ensures
            *id == self.plugin_id,
    {
        &self.plugin_id
    }

    /// The selected plugin version.
    pub fn version(&self) -> (version: &str)
        ensures
            version@ == self.version@,
    {
        self.version.as_str()
    }
}

/// Why bindings were refused.
#[derive(Debug, Clone, Copy, PartialEq, Eq, Structural)]
pub enum HostBindingsError {
    /// The document exceeded the byte limit.
    TooLarge,
    /// The document was malformed or held unknown fields.
    InvalidJson,
    /// The format version is unsupported.
    UnsupportedVersion,
    /// The version of a target is invalid.
    InvalidVersion,
}

impl HostBindingsError {
    /// The text shown for the error.
    pub fn message(&self) -> (text: &'static str)
        ensures
            text@ == (match *self {
                HostBindingsError::TooLarge => "host plugin bindings exceed their size limit"@,
                HostBindingsError::InvalidJson => "host plugin bindings JSON is invalid"@,
                HostBindingsError::UnsupportedVersion =>
                    "host plugin bindings version is unsupported"@,
                HostBindingsError::InvalidVersion =>
                    "host plugin binding target version is invalid"@,
            }),
    {
        match self {
            HostBindingsError::TooLarge => "host plugin bindings exceed their size limit",
            HostBindingsError::InvalidJson => "host plugin bindings JSON is invalid",
            HostBindingsError::UnsupportedVersion => "host plugin bindings version is unsupported",
            HostBindingsError::InvalidVersion => "host plugin binding target version is invalid",
        }
    }
}

/// A decoded bindings document.
#[derive(Debug)]
pub struct RawHostBindings {
    pub binding_version: u32,
    pub tool_binding: NameMap<ToolBindingTarget>,
}

/// The owners selected for colliding tool names.
#[derive(Debug)]
pub struct HostBindings {
    pub tool_binding: NameMap<ToolBindingTarget>,
}

/// Whether a text is a semantic version.
pub uninterp spec fn is_semantic_version(text: Seq<char>) -> bool;

/// Calls `semver::Version::parse`: whether it accepts the text depends on the
/// text alone.
#[verifier::external_body]
pub(crate) fn parses_as_version(text: &str) -> (valid: bool)
    ensures
        valid == is_semantic_version(text@),
{
    semver::Version::parse(text).is_ok()
}

/// Whether bytes are a JSON document.
pub uninterp spec fn is_json_document(bytes: Seq<u8>) -> bool;

/// Calls `serde_json::from_slice` for a `serde_json::Value`: whether it accepts
/// the bytes depends on the bytes alone.
#[verifier::external_body]
pub(crate) fn parses_as_json(bytes: &[u8]) -> (valid: bool)
    ensures
        valid == is_json_document(bytes@),
{
    serde_json::from_slice::<serde_json::Value>(bytes).is_ok()
}

/// Whether every target has a semantic version.
pub open spec fn has_versions(pairs: Seq<(Seq<char>, ToolBindingTarget)>) -> bool {
    forall|i: int|
        0 <= i < pairs.len() ==> is_semantic_version((#[trigger] pairs[i]).1.version@)
}

/// Whether every target has a semantic version.
pub fn targets_have_versions(targets: &NameMap<ToolBindingTarget>) -> (valid: bool)
    ensures
        valid == has_versions(targets.pairs()),
{
    let mut i: usize = 0;
    while i < targets.len()
        invariant
            i <= targets.pairs().len(),
            forall|j: int|
                0 <= j < i ==> is_semantic_version((#[trigger] targets.pairs()[j]).1.version@),
        decreases targets.pairs().len() - i,
    {
        if !parses_as_version(targets.value_at(i).version.as_str()) {
            assert(!is_semantic_version(targets.pairs()[i as int].1.version@));
            return false;
        }
        i += 1;
    }
    true
}

impl HostBindings {
    /// No bindings.
    pub fn empty() -> (bindings: Self)
        ensures
            bindings.tool_binding.pairs() == Seq::<(Seq<char>, ToolBindingTarget)>::empty(),
    {
        HostBindings { tool_binding: NameMap::new() }
    }

    /// Whether a document is within its byte limit.
    pub fn fits(bytes: &[u8], max_bytes: usize) -> (fits: bool)
        ensures
            fits == (bytes@.len() <= max_bytes),
    {
        bytes.len() <= max_bytes
    }

    /// The bindings of a decoded document; `versions_valid` says whether every
    /// target has a semantic version.
    pub fn from_decoded(raw: RawHostBindings, versions_valid: bool) -> (result: Result<
        Self,
        HostBindingsError,
    >)
        ensures
            match result {
                Ok(bindings) => raw.binding_version == HOST_BINDINGS_VERSION && versions_valid
                    && bindings.tool_binding == raw.tool_binding,
                Err(HostBindingsError::UnsupportedVersion) => raw.binding_version
                    != HOST_BINDINGS_VERSION,
                Err(HostBindingsError::InvalidVersion) => raw.binding_version
                    == HOST_BINDINGS_VERSION && !versions_valid,
                Err(_) => false,
            },
    {
        if raw.binding_version != HOST_BINDINGS_VERSION {
            return Err(HostBindingsError::UnsupportedVersion);
        }
        if !versions_valid {
            return Err(HostBindingsError::InvalidVersion);
        }
        Ok(HostBindings { tool_binding: raw.tool_binding })
    }

    /// The bindings of a document; `decoded` is what the decoder made of the
    /// JSON in its bytes, and `max_bytes` its byte limit.
    pub fn parse_json(
        bytes: &[u8],
        max_bytes: usize,
        decoded: Option<RawHostBindings>,
    ) -> (result: Result<Self, HostBindingsError>)
        ensures
            result matches Err(HostBindingsError::TooLarge) <==> bytes@.len() > max_bytes,
            result matches Err(HostBindingsError::InvalidJson) <==> bytes@.len() <= max_bytes && (
            !is_json_document(bytes@) || decoded is None),
            bytes@.len() <= max_bytes && is_json_document(bytes@) ==> (decoded matches Some(raw)
                ==> match result {
                Ok(bindings) => raw.binding_version == HOST_BINDINGS_VERSION && has_versions(
                    raw.tool_binding.pairs(),
                ) && bindings.tool_binding == raw.tool_binding,
                Err(HostBindingsError::UnsupportedVersion) => raw.binding_version
                    != HOST_BINDINGS_VERSION,
                Err(HostBindingsError::InvalidVersion) => raw.binding_version
                    == HOST_BINDINGS_VERSION && !has_versions(raw.tool_binding.pairs()),
                Err(_) => false,
            }),
    {
        if !Self::fits(bytes, max_bytes) {
            return Err(HostBindingsError::TooLarge);
        }
        if !parses_as_json(bytes) {
            return Err(HostBindingsError::InvalidJson);
        }
        match decoded {
            None => Err(HostBindingsError::InvalidJson),
            Some(raw) => {
                let versions_valid = targets_have_versions(&raw.tool_binding);
                Self::from_decoded(raw, versions_valid)
            },
        }
    }
}

impl Default for HostBindings {
    /// No bindings.
    fn default() -> (bindings: Self)
        ensures
            bindings.tool_binding.pairs() == Seq::<(Seq<char>, ToolBindingTarget)>::empty(),
    {
        HostBindings::empty()
    }
}

} // verus!
