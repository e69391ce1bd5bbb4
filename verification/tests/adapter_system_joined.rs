//! End-to-end system collection and join-composite alternatives.

use mcode_plugin_host::provider_api::{
    CacheRetention, CapabilitySupport, CatalogEntry, IdText, InputModality, ModelSelection,
    OrdinaryHeader, PrepareInput, Reasoning, ReasoningCapability, ToolCapability, ToolChoice,
    WireJsonArray, WireJsonDocument, WireJsonField, WireJsonNode, WireJsonObject,
};
use mcode_plugin_host::provider_validation::adapter::validate_adapter;
use mcode_plugin_host::provider_validation::adapter::json::AdapterJson;
use mcode_plugin_host::provider_validation::adapter::types::{
    AdapterCollection, AdapterContractV1, AdapterDecoderKind, AdapterModelSource,
    AdapterPresence, AdapterPresenceSource, AdapterScalarSource, AdapterTransform,
    AdapterValidationError, AdapterVariantSource, AdapterWireId, ContractArray, ContractCase,
    ContractConstant, ContractNode, ContractNodeBody, ContractObject, ContractSwitch,
    ContractTree, ContractValue, PathSegment, TypedJsonConstant, ValidatedCatalogEntryView,
};

const DIGEST: &str =
    "sha256:0123456789abcdef0123456789abcdef0123456789abcdef0123456789abcdef";

struct DummyFixture {
    contract: AdapterContractV1,
    entry: CatalogEntry,
    original: PrepareInput,
    body: WireJsonDocument,
    headers: Vec<OrdinaryHeader>,
}

#[derive(Default)]
struct ContractBuilder {
    nodes: Vec<ContractNode>,
}

impl DummyFixture {
    fn selected(&self) -> ValidatedCatalogEntryView<'_> {
        ValidatedCatalogEntryView {
            provider_id: Box::leak(Box::new(id("provider"))),
            route_id: Box::leak(Box::new(id("route"))),
            catalog_digest: DIGEST,
            selection: &self.entry.selection,
            current_model: &self.entry.current_model,
            input_modalities: &self.entry.input_modalities,
            tool_capability: &self.entry.tool_capability,
            reasoning_capability: &self.entry.reasoning_capability,
            context_tokens: self.entry.context_tokens,
            max_output_tokens: self.entry.max_output_tokens,
            completion_operation: &self.entry.completion_operation,
        }
    }
}

impl ContractBuilder {
    fn push(
        &mut self,
        segment: Option<PathSegment>,
        presence: AdapterPresence,
        presence_source: Option<AdapterPresenceSource>,
        body: ContractNodeBody,
    ) -> u32 {
        let index = u32::try_from(self.nodes.len()).expect("dummy contract node count");
        self.nodes.push(ContractNode {
            parent: None,
            segment,
            presence,
            presence_source,
            body,
        });
        index
    }

    fn attach(&mut self, parent: u32, children: &[u32]) {
        for child in children {
            self.nodes[*child as usize].parent = Some(parent);
        }
    }

    fn object(
        &mut self,
        segment: Option<PathSegment>,
        presence: AdapterPresence,
        presence_source: Option<AdapterPresenceSource>,
        children: Vec<u32>,
    ) -> u32 {
        let node = self.push(
            segment,
            presence,
            presence_source,
            ContractNodeBody::Object(ContractObject {
                children: children.clone(),
            }),
        );
        self.attach(node, &children);
        node
    }

    fn array(
        &mut self,
        segment: Option<PathSegment>,
        collection: AdapterCollection,
        item: u32,
        min: u32,
        max: u32,
    ) -> u32 {
        let node = self.push(
            segment,
            AdapterPresence::Required,
            None,
            ContractNodeBody::Array(ContractArray {
                collection,
                item,
                min,
                max,
            }),
        );
        self.attach(node, &[item]);
        node
    }

    fn switch(
        &mut self,
        segment: Option<PathSegment>,
        presence: AdapterPresence,
        presence_source: Option<AdapterPresenceSource>,
        source: AdapterVariantSource,
        cases: Vec<u32>,
    ) -> u32 {
        let node = self.push(
            segment,
            presence,
            presence_source,
            ContractNodeBody::Switch(ContractSwitch {
                source,
                cases: cases
                    .iter()
                    .enumerate()
                    .map(|(ordinal, node)| ContractCase {
                        variant_ordinal: ordinal as u8,
                        node: *node,
                    })
                    .collect(),
            }),
        );
        self.attach(node, &cases);
        node
    }

    fn value(
        &mut self,
        segment: Option<PathSegment>,
        presence: AdapterPresence,
        presence_source: Option<AdapterPresenceSource>,
        source: AdapterScalarSource,
        transform: AdapterTransform,
    ) -> u32 {
        self.push(
            segment,
            presence,
            presence_source,
            ContractNodeBody::Value(ContractValue { source, transform }),
        )
    }

    fn constant(
        &mut self,
        segment: Option<PathSegment>,
        presence: AdapterPresence,
        presence_source: Option<AdapterPresenceSource>,
        value: TypedJsonConstant,
    ) -> u32 {
        self.push(
            segment,
            presence,
            presence_source,
            ContractNodeBody::Constant(ContractConstant { value }),
        )
    }
}

fn id(text: &str) -> IdText {
    IdText {
        text: text.to_owned(),
        canonical: true,
    }
}

fn catalog_entry(model: &str) -> CatalogEntry {
    CatalogEntry {
        selection: ModelSelection::Exact(id(model)),
        current_model: id(model),
        display_name: Some("Model".to_owned()),
        input_modalities: vec![InputModality::Text, InputModality::Image],
        tool_capability: supported_tools(),
        reasoning_capability: supported_reasoning(),
        context_tokens: Some(4_096),
        max_output_tokens: Some(1_024),
        completion_operation: id("complete"),
    }
}

fn prepare_input() -> PrepareInput {
    PrepareInput {
        provider_id: id("provider"),
        route_id: id("route"),
        catalog_digest: DIGEST.to_owned(),
        selection: ModelSelection::Exact(id("model")),
        current_model: id("model"),
        operation_id: id("complete"),
        request_id: id("request-1"),
        turn_id: id("turn-1"),
        system: vec![],
        messages: vec![],
        tools: vec![],
        tool_choice: ToolChoice::Unset,
        reasoning: Reasoning::Unset,
        cache_retention: CacheRetention::Unset,
        max_output_tokens: None,
    }
}

fn decoder_for(wire_id: AdapterWireId) -> AdapterDecoderKind {
    match wire_id {
        AdapterWireId::AnthropicMessages => AdapterDecoderKind::AnthropicMessages,
        AdapterWireId::OpenAiCompletions => AdapterDecoderKind::OpenAiCompletions,
        AdapterWireId::OpenAiResponses => AdapterDecoderKind::OpenAiResponses,
        AdapterWireId::OpenAiCodexResponses => AdapterDecoderKind::OpenAiCodexResponses,
        AdapterWireId::AzureOpenAiResponses => AdapterDecoderKind::AzureOpenAiResponses,
        AdapterWireId::GoogleGenerativeAi => AdapterDecoderKind::GoogleGenerativeAi,
        AdapterWireId::GoogleVertex => AdapterDecoderKind::GoogleVertex,
        AdapterWireId::MistralConversations => AdapterDecoderKind::MistralConversations,
        AdapterWireId::BedrockConverseStream => AdapterDecoderKind::BedrockConverseStream,
        AdapterWireId::PiMessages => AdapterDecoderKind::PiMessages,
    }
}

fn wire_document(value: &AdapterJson) -> WireJsonDocument {
    let mut nodes = Vec::new();
    let root = test_json_append(value, &mut nodes);
    WireJsonDocument { root, nodes }
}

fn test_json_append(value: &AdapterJson, nodes: &mut Vec<WireJsonNode>) -> u32 {
    let node = match value {
        AdapterJson::Null => WireJsonNode::NullValue,
        AdapterJson::Boolean(value) => WireJsonNode::BooleanValue(*value),
        AdapterJson::Number(value) => WireJsonNode::NumberValue(value.clone()),
        AdapterJson::String { value, .. } => WireJsonNode::StringValue(value.clone()),
        AdapterJson::Array(items) => {
            let items = items.iter().map(|item| test_json_append(item, nodes)).collect();
            WireJsonNode::ArrayValue(WireJsonArray { items })
        }
        AdapterJson::Object(fields) => {
            let fields = fields
                .iter()
                .map(|(key, value)| WireJsonField {
                    key: key.clone(),
                    value: test_json_append(value, nodes),
                })
                .collect();
            WireJsonNode::ObjectValue(WireJsonObject { fields })
        }
    };
    let index = u32::try_from(nodes.len()).expect("test wire node count");
    nodes.push(node);
    index
}

fn supported_tools() -> ToolCapability {
    ToolCapability {
        tools: CapabilitySupport::Supported,
        auto_choice: CapabilitySupport::Supported,
        none_choice: CapabilitySupport::Supported,
        specific_choice: CapabilitySupport::Supported,
    }
}

fn supported_reasoning() -> ReasoningCapability {
    ReasoningCapability {
        reasoning: CapabilitySupport::Supported,
        effort: CapabilitySupport::Supported,
        budget: CapabilitySupport::Supported,
        proof: CapabilitySupport::Supported,
    }
}

#[test]
fn system_joined_materializes_exact_declaration_order_lf_bytes() {
    let fixture = joined_fixture(SystemProjection::Joined);
    assert!(
        validate_adapter(
            &fixture.contract,
            fixture.selected(),
            &fixture.original,
            &fixture.body,
            &fixture.headers,
        )
        .is_ok()
    );
}

#[test]
fn system_collection_and_joined_are_exclusive_and_complete() {
    for (projection, expected) in [
        (
            SystemProjection::Both,
            AdapterValidationError::InvalidContract,
        ),
        (
            SystemProjection::Neither,
            AdapterValidationError::SourceMismatch,
        ),
    ] {
        let fixture = joined_fixture(projection);
        assert_eq!(
            validate_adapter(
                &fixture.contract,
                fixture.selected(),
                &fixture.original,
                &fixture.body,
                &fixture.headers,
            ),
            Err(expected),
            "{projection:?}"
        );
    }
}

#[derive(Debug, Clone, Copy)]
enum SystemProjection {
    Joined,
    Both,
    Neither,
}

fn joined_fixture(projection: SystemProjection) -> DummyFixture {
    let mut original = prepare_input();
    original.system = vec!["alpha".to_owned(), String::new(), "omega".to_owned()];
    let expected = object(vec![
        ("messages", AdapterJson::Array(vec![])),
        ("model", string("model")),
        ("system", string("alpha\n\nomega")),
        ("tools", AdapterJson::Array(vec![])),
    ]);
    DummyFixture {
        contract: joined_contract(projection),
        entry: catalog_entry("model"),
        original,
        body: wire_document(&expected),
        headers: vec![],
    }
}

fn joined_contract(projection: SystemProjection) -> AdapterContractV1 {
    let mut builder = ContractBuilder::default();
    let cache = omitted(
        &mut builder,
        "cache",
        AdapterPresence::OmitForUnset,
        AdapterPresenceSource::CacheRetention,
    );
    let max_output = omitted(
        &mut builder,
        "maxOutput",
        AdapterPresence::OmitIfNone,
        AdapterPresenceSource::MaxOutput,
    );
    let message_cases = (0..3).map(|_| constant(&mut builder, None)).collect();
    let message_item = builder.switch(
        Some(PathSegment::ArrayItem),
        AdapterPresence::Required,
        None,
        AdapterVariantSource::Message,
        message_cases,
    );
    let messages = builder.array(
        Some(key("messages")),
        AdapterCollection::Messages,
        message_item,
        0,
        4_096,
    );
    let model_cases = (0..2)
        .map(|_| {
            value(
                &mut builder,
                None,
                AdapterScalarSource::SelectedModel,
                AdapterTransform::Identity,
            )
        })
        .collect();
    let model = builder.switch(
        Some(key("model")),
        AdapterPresence::Required,
        None,
        AdapterVariantSource::ModelSelection,
        model_cases,
    );
    let reasoning = omitted(
        &mut builder,
        "reasoning",
        AdapterPresence::OmitForUnset,
        AdapterPresenceSource::Reasoning,
    );

    let mut system = Vec::new();
    if matches!(projection, SystemProjection::Both) {
        let item = value(
            &mut builder,
            Some(PathSegment::ArrayItem),
            AdapterScalarSource::SystemItem,
            AdapterTransform::Identity,
        );
        system.push(builder.array(
            Some(key("systemArray")),
            AdapterCollection::System,
            item,
            0,
            1_024,
        ));
    }
    if matches!(
        projection,
        SystemProjection::Joined | SystemProjection::Both
    ) {
        let name = if matches!(projection, SystemProjection::Both) {
            "systemJoined"
        } else {
            "system"
        };
        system.push(value(
            &mut builder,
            Some(key(name)),
            AdapterScalarSource::SystemJoined,
            AdapterTransform::JoinLf,
        ));
    }

    let tool_choice = omitted(
        &mut builder,
        "toolChoice",
        AdapterPresence::OmitForUnset,
        AdapterPresenceSource::ToolChoice,
    );
    let description = value(
        &mut builder,
        Some(key("description")),
        AdapterScalarSource::ToolDescription,
        AdapterTransform::Identity,
    );
    let name = value(
        &mut builder,
        Some(key("name")),
        AdapterScalarSource::ToolName,
        AdapterTransform::Identity,
    );
    let schema = value(
        &mut builder,
        Some(key("schema")),
        AdapterScalarSource::ToolSchema,
        AdapterTransform::JsonSubtree,
    );
    let tool = builder.object(
        Some(PathSegment::ArrayItem),
        AdapterPresence::Required,
        None,
        vec![description, name, schema],
    );
    let tools = builder.array(Some(key("tools")), AdapterCollection::Tools, tool, 0, 1_024);

    let mut children = vec![cache, max_output, messages, model, reasoning];
    children.extend(system);
    children.extend([tool_choice, tools]);
    let root = builder.object(None, AdapterPresence::Required, None, children);
    AdapterContractV1 {
        version: 1,
        wire_id: AdapterWireId::OpenAiResponses,
        model_source: AdapterModelSource::CurrentModel,
        tree: ContractTree {
            root,
            nodes: builder.nodes,
            tables: vec![],
        },
        ordinary_header_rules: vec![],
        decoder_kind: decoder_for(AdapterWireId::OpenAiResponses),
    }
}

fn value(
    builder: &mut ContractBuilder,
    segment: Option<PathSegment>,
    source: AdapterScalarSource,
    transform: AdapterTransform,
) -> u32 {
    builder.value(segment, AdapterPresence::Required, None, source, transform)
}

fn omitted(
    builder: &mut ContractBuilder,
    name: &str,
    presence: AdapterPresence,
    source: AdapterPresenceSource,
) -> u32 {
    builder.constant(
        Some(key(name)),
        presence,
        Some(source),
        TypedJsonConstant::Null,
    )
}

fn constant(builder: &mut ContractBuilder, segment: Option<PathSegment>) -> u32 {
    builder.constant(
        segment,
        AdapterPresence::Required,
        None,
        TypedJsonConstant::Null,
    )
}

fn key(value: &str) -> PathSegment {
    PathSegment::Key(value.to_owned())
}

fn string(value: &str) -> AdapterJson {
    AdapterJson::ordinary_string(value)
}

fn object(fields: Vec<(&str, AdapterJson)>) -> AdapterJson {
    AdapterJson::Object(
        fields
            .into_iter()
            .map(|(key, value)| (key.to_owned(), value))
            .collect(),
    )
}
