//! Plain values of Resources tasks.
//!
//! The task interface itself is defined elsewhere; these types hold the same
//! data so that validation can speak about it.

use vstd::prelude::*;

verus! {

/// Asks for one page of the catalog.
#[derive(Debug, Clone, PartialEq, Eq)]
pub struct ResourcesCatalogRequest {
    pub offset: u32,
    pub limit: u16,
}

/// Asks for a part of one resource.
#[derive(Debug, Clone, PartialEq, Eq)]
pub struct ResourcesReadRequest {
    pub id: String,
    pub offset: u64,
    pub max_bytes: u32,
}

/// An argument of a prompt.
#[derive(Debug, Clone, PartialEq, Eq)]
pub struct ResourcesPromptArg {
    pub name: String,
    pub value: String,
}

/// Asks for a rendered prompt.
#[derive(Debug, Clone, PartialEq, Eq)]
pub struct ResourcesRenderPromptRequest {
    pub id: String,
    pub args: Vec<ResourcesPromptArg>,
}

/// A request to the Resources feature.
#[derive(Debug, Clone, PartialEq, Eq)]
pub enum ResourcesTaskRequest {
    Catalog(ResourcesCatalogRequest),
    Read(ResourcesReadRequest),
    RenderPrompt(ResourcesRenderPromptRequest),
    Contributions,
}

/// What the task interface says of a body and the request that it answers.
#[derive(Debug, Clone, Copy, PartialEq, Eq, Structural)]
pub enum TaskRelation {
    /// The body belongs to the case of the request.
    Related,
    /// The body was refused for this request.
    Crossed,
}

/// The media type of a resource.
#[derive(Debug, Clone, Copy, PartialEq, Eq, Structural)]
pub enum ResourcesMedia {
    Text,
    Markdown,
    Other,
}

/// A resource of the catalog.
#[derive(Debug, Clone, PartialEq, Eq)]
pub struct ResourcesResourceEntry {
    pub id: String,
    pub title: String,
    pub media: ResourcesMedia,
    pub size_hint: Option<u64>,
}

/// A parameter of a prompt.
#[derive(Debug, Clone, PartialEq, Eq)]
pub struct ResourcesPromptParam {
    pub name: String,
    pub label: String,
    pub required: bool,
}

/// A prompt of the catalog.
#[derive(Debug, Clone, PartialEq, Eq)]
pub struct ResourcesPromptEntry {
    pub id: String,
    pub title: String,
    pub params: Vec<ResourcesPromptParam>,
}

/// An entry of the catalog.
#[derive(Debug, Clone, PartialEq, Eq)]
pub enum ResourcesCatalogEntry {
    Resource(ResourcesResourceEntry),
    Prompt(ResourcesPromptEntry),
}

/// One page of the catalog.
#[derive(Debug, Clone, PartialEq, Eq)]
pub struct ResourcesCatalogResult {
    pub items: Vec<ResourcesCatalogEntry>,
    pub next_offset: Option<u32>,
}

/// A part of one resource.
#[derive(Debug, Clone, PartialEq, Eq)]
pub struct ResourcesReadResult {
    pub text: String,
    pub next_offset: Option<u64>,
}

/// Who speaks a prompt message.
#[derive(Debug, Clone, Copy, PartialEq, Eq, Structural)]
pub enum ResourcesMessageRole {
    User,
    Assistant,
}

/// A message of a rendered prompt.
#[derive(Debug, Clone, PartialEq, Eq)]
pub struct ResourcesPromptMessage {
    pub role: ResourcesMessageRole,
    pub text: String,
}

/// A rendered prompt.
#[derive(Debug, Clone, PartialEq, Eq)]
pub struct ResourcesPromptResult {
    pub id: String,
    pub messages: Vec<ResourcesPromptMessage>,
}

/// Where a contribution is shown.
#[derive(Debug, Clone, Copy, PartialEq, Eq, Structural)]
pub enum ResourcesContributionKind {
    Status,
    Panel,
    Other,
}

/// A contribution of the feature.
#[derive(Debug, Clone, PartialEq, Eq)]
pub struct ResourcesContribution {
    pub id: String,
    pub kind: ResourcesContributionKind,
}

/// The contributions of the feature.
#[derive(Debug, Clone, PartialEq, Eq)]
pub struct ResourcesContributionsResult {
    pub items: Vec<ResourcesContribution>,
}

/// The answer of the Resources feature.
#[derive(Debug, Clone, PartialEq, Eq)]
pub enum ResourcesTaskResult {
    Catalog(ResourcesCatalogResult),
    Read(ResourcesReadResult),
    Prompt(ResourcesPromptResult),
    Contributions(ResourcesContributionsResult),
}

} // verus!
