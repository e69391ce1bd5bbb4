//! End-to-end system-message sequence behavior tests.

use mcode_plugin_host::provider_api::{
    CacheRetention, CapabilitySupport, CatalogEntry, IdText, InputModality, Message,
    ModelSelection, OrdinaryHeader, PrepareInput, Reasoning, ReasoningCapability, TextBlock,
    ToolCapability, ToolChoice, UserBlock, UserMessage, WireJsonArray, WireJsonDocument,
    WireJsonField, WireJsonNode, WireJsonObject,
};
use mcode_plugin_host::provider_validation::adapter::validate_adapter;
use mcode_plugin_host::provider_validation::adapter::json::AdapterJson;
use mcode_plugin_host::provider_validation::adapter::types::{
    AdapterCollection, AdapterContractV1, AdapterDecoderKind, AdapterModelSource,
    AdapterPresence, AdapterPresenceSource, AdapterScalarSource, AdapterTransform,
    AdapterValidationError, AdapterVariantSource, AdapterWireId, ContractArray, ContractCase,
    ContractConstant, ContractNode, ContractNodeBody, ContractObject, ContractSwitch,
    ContractTree, ContractValue, PathSegment, TypedJsonConstant, ValidatedCatalogEntryView,
};

const DIGEST: &str =
    "sha256:0123456789abcdef0123456789abcdef0123456789abcdef0123456789abcdef";

struct DummyFixture {
    contract: AdapterContractV1,
    entry: CatalogEntry,
    original: PrepareInput,
    body: WireJsonDocument,
    headers: Vec<OrdinaryHeader>,
}

#[derive(Default)]
struct ContractBuilder {
    nodes: Vec<ContractNode>,
}

impl DummyFixture {
    fn selected(&self) -> ValidatedCatalogEntryView<'_> {
        ValidatedCatalogEntryView {
            provider_id: Box::leak(Box::new(id("provider"))),
            route_id: Box::leak(Box::new(id("route"))),
            catalog_digest: DIGEST,
            selection: &self.entry.selection,
            current_model: &self.entry.current_model,
            input_modalities: &self.entry.input_modalities,
            tool_capability: &self.entry.tool_capability,
            reasoning_capability: &self.entry.reasoning_capability,
            context_tokens: self.entry.context_tokens,
            max_output_tokens: self.entry.max_output_tokens,
            completion_operation: &self.entry.completion_operation,
        }
    }
}

impl ContractBuilder {
    fn push(
        &mut self,
        segment: Option<PathSegment>,
        presence: AdapterPresence,
        presence_source: Option<AdapterPresenceSource>,
        body: ContractNodeBody,
    ) -> u32 {
        let index = u32::try_from(self.nodes.len()).expect("dummy contract node count");
        self.nodes.push(ContractNode {
            parent: None,
            segment,
            presence,
            presence_source,
            body,
        });
        index
    }

    fn attach(&mut self, parent: u32, children: &[u32]) {
        for child in children {
            self.nodes[*child as usize].parent = Some(parent);
        }
    }

    fn object(
        &mut self,
        segment: Option<PathSegment>,
        presence: AdapterPresence,
        presence_source: Option<AdapterPresenceSource>,
        children: Vec<u32>,
    ) -> u32 {
        let node = self.push(
            segment,
            presence,
            presence_source,
            ContractNodeBody::Object(ContractObject {
                children: children.clone(),
            }),
        );
        self.attach(node, &children);
        node
    }

    fn array(
        &mut self,
        segment: Option<PathSegment>,
        collection: AdapterCollection,
        item: u32,
        min: u32,
        max: u32,
    ) -> u32 {
        let node = self.push(
            segment,
            AdapterPresence::Required,
            None,
            ContractNodeBody::Array(ContractArray {
                collection,
                item,
                min,
                max,
            }),
        );
        self.attach(node, &[item]);
        node
    }

    fn switch(
        &mut self,
        segment: Option<PathSegment>,
        presence: AdapterPresence,
        presence_source: Option<AdapterPresenceSource>,
        source: AdapterVariantSource,
        cases: Vec<u32>,
    ) -> u32 {
        let node = self.push(
            segment,
            presence,
            presence_source,
            ContractNodeBody::Switch(ContractSwitch {
                source,
                cases: cases
                    .iter()
                    .enumerate()
                    .map(|(ordinal, node)| ContractCase {
                        variant_ordinal: ordinal as u8,
                        node: *node,
                    })
                    .collect(),
            }),
        );
        self.attach(node, &cases);
        node
    }

    fn value(
        &mut self,
        segment: Option<PathSegment>,
        presence: AdapterPresence,
        presence_source: Option<AdapterPresenceSource>,
        source: AdapterScalarSource,
        transform: AdapterTransform,
    ) -> u32 {
        self.push(
            segment,
            presence,
            presence_source,
            ContractNodeBody::Value(ContractValue { source, transform }),
        )
    }

    fn constant(
        &mut self,
        segment: Option<PathSegment>,
        presence: AdapterPresence,
        presence_source: Option<AdapterPresenceSource>,
        value: TypedJsonConstant,
    ) -> u32 {
        self.push(
            segment,
            presence,
            presence_source,
            ContractNodeBody::Constant(ContractConstant { value }),
        )
    }
}

fn id(text: &str) -> IdText {
    IdText {
        text: text.to_owned(),
        canonical: true,
    }
}

fn catalog_entry(model: &str) -> CatalogEntry {
    CatalogEntry {
        selection: ModelSelection::Exact(id(model)),
        current_model: id(model),
        display_name: Some("Model".to_owned()),
        input_modalities: vec![InputModality::Text, InputModality::Image],
        tool_capability: supported_tools(),
        reasoning_capability: supported_reasoning(),
        context_tokens: Some(4_096),
        max_output_tokens: Some(1_024),
        completion_operation: id("complete"),
    }
}

fn prepare_input() -> PrepareInput {
    PrepareInput {
        provider_id: id("provider"),
        route_id: id("route"),
        catalog_digest: DIGEST.to_owned(),
        selection: ModelSelection::Exact(id("model")),
        current_model: id("model"),
        operation_id: id("complete"),
        request_id: id("request-1"),
        turn_id: id("turn-1"),
        system: vec![],
        messages: vec![],
        tools: vec![],
        tool_choice: ToolChoice::Unset,
        reasoning: Reasoning::Unset,
        cache_retention: CacheRetention::Unset,
        max_output_tokens: None,
    }
}

fn decoder_for(wire_id: AdapterWireId) -> AdapterDecoderKind {
    match wire_id {
        AdapterWireId::AnthropicMessages => AdapterDecoderKind::AnthropicMessages,
        AdapterWireId::OpenAiCompletions => AdapterDecoderKind::OpenAiCompletions,
        AdapterWireId::OpenAiResponses => AdapterDecoderKind::OpenAiResponses,
        AdapterWireId::OpenAiCodexResponses => AdapterDecoderKind::OpenAiCodexResponses,
        AdapterWireId::AzureOpenAiResponses => AdapterDecoderKind::AzureOpenAiResponses,
        AdapterWireId::GoogleGenerativeAi => AdapterDecoderKind::GoogleGenerativeAi,
        AdapterWireId::GoogleVertex => AdapterDecoderKind::GoogleVertex,
        AdapterWireId::MistralConversations => AdapterDecoderKind::MistralConversations,
        AdapterWireId::BedrockConverseStream => AdapterDecoderKind::BedrockConverseStream,
        AdapterWireId::PiMessages => AdapterDecoderKind::PiMessages,
    }
}

fn wire_document(value: &AdapterJson) -> WireJsonDocument {
    let mut nodes = Vec::new();
    let root = test_json_append(value, &mut nodes);
    WireJsonDocument { root, nodes }
}

fn test_json_append(value: &AdapterJson, nodes: &mut Vec<WireJsonNode>) -> u32 {
    let node = match value {
        AdapterJson::Null => WireJsonNode::NullValue,
        AdapterJson::Boolean(value) => WireJsonNode::BooleanValue(*value),
        AdapterJson::Number(value) => WireJsonNode::NumberValue(value.clone()),
        AdapterJson::String { value, .. } => WireJsonNode::StringValue(value.clone()),
        AdapterJson::Array(items) => {
            let items = items.iter().map(|item| test_json_append(item, nodes)).collect();
            WireJsonNode::ArrayValue(WireJsonArray { items })
        }
        AdapterJson::Object(fields) => {
            let fields = fields
                .iter()
                .map(|(key, value)| WireJsonField {
                    key: key.clone(),
                    value: test_json_append(value, nodes),
                })
                .collect();
            WireJsonNode::ObjectValue(WireJsonObject { fields })
        }
    };
    let index = u32::try_from(nodes.len()).expect("test wire node count");
    nodes.push(node);
    index
}

fn supported_tools() -> ToolCapability {
    ToolCapability {
        tools: CapabilitySupport::Supported,
        auto_choice: CapabilitySupport::Supported,
        none_choice: CapabilitySupport::Supported,
        specific_choice: CapabilitySupport::Supported,
    }
}

fn supported_reasoning() -> ReasoningCapability {
    ReasoningCapability {
        reasoning: CapabilitySupport::Supported,
        effort: CapabilitySupport::Supported,
        budget: CapabilitySupport::Supported,
        proof: CapabilitySupport::Supported,
    }
}

#[test]
fn system_messages_materialize_system_before_messages_in_lexical_scope() {
    let fixture = sequence_fixture();
    assert!(
        validate_adapter(
            &fixture.contract,
            fixture.selected(),
            &fixture.original,
            &fixture.body,
            &fixture.headers,
        )
        .is_ok()
    );

    let mut reversed = fixture.body.clone();
    let entries = match reversed.nodes.last() {
        Some(WireJsonNode::ObjectValue(root)) => root.fields[0].value as usize,
        _ => panic!("root object"),
    };
    let WireJsonNode::ArrayValue(entries) = &mut reversed.nodes[entries] else {
        panic!("entries array")
    };
    entries.items.swap(0, 1);
    assert_eq!(
        validate_adapter(
            &fixture.contract,
            fixture.selected(),
            &fixture.original,
            &reversed,
            &fixture.headers,
        ),
        Err(AdapterValidationError::BodyMismatch)
    );
}

fn sequence_fixture() -> DummyFixture {
    let mut original = prepare_input();
    original.system = vec!["system".to_owned()];
    original.messages = vec![Message::User(UserMessage {
        blocks: vec![UserBlock::Text(TextBlock {
            text: "user".to_owned(),
        })],
    })];
    let expected = json_object(vec![
        (
            "entries",
            AdapterJson::Array(vec![
                json_object(vec![
                    ("content", string("system")),
                    ("role", string("system")),
                ]),
                json_object(vec![("blocks", AdapterJson::Array(vec![string("user")]))]),
            ]),
        ),
        ("model", string("model")),
        ("tools", AdapterJson::Array(vec![])),
    ]);
    DummyFixture {
        contract: sequence_contract(),
        entry: catalog_entry("model"),
        original,
        body: wire_document(&expected),
        headers: vec![],
    }
}

fn sequence_contract() -> AdapterContractV1 {
    let mut builder = ContractBuilder::default();
    let content = value(
        &mut builder,
        Some(key("content")),
        AdapterScalarSource::SystemItem,
        AdapterTransform::Identity,
    );
    let role = builder.constant(
        Some(key("role")),
        AdapterPresence::Required,
        None,
        TypedJsonConstant::String("system".to_owned()),
    );
    let system = object(&mut builder, None, vec![content, role]);

    let text = value(
        &mut builder,
        None,
        AdapterScalarSource::BlockText,
        AdapterTransform::Identity,
    );
    let image = builder.constant(
        None,
        AdapterPresence::Required,
        None,
        TypedJsonConstant::Null,
    );
    let user_item = builder.switch(
        Some(PathSegment::ArrayItem),
        AdapterPresence::Required,
        None,
        AdapterVariantSource::UserBlock,
        vec![text, image],
    );
    let user_blocks = builder.array(
        Some(key("blocks")),
        AdapterCollection::Blocks,
        user_item,
        1,
        4_096,
    );
    let user = object(&mut builder, None, vec![user_blocks]);
    let assistant = builder.constant(
        None,
        AdapterPresence::Required,
        None,
        TypedJsonConstant::Null,
    );
    let result = builder.constant(
        None,
        AdapterPresence::Required,
        None,
        TypedJsonConstant::Null,
    );
    let message = builder.switch(
        None,
        AdapterPresence::Required,
        None,
        AdapterVariantSource::Message,
        vec![user, assistant, result],
    );
    let entry = builder.switch(
        Some(PathSegment::ArrayItem),
        AdapterPresence::Required,
        None,
        AdapterVariantSource::SystemMessageEntry,
        vec![system, message],
    );
    let entries = builder.array(
        Some(key("entries")),
        AdapterCollection::SystemMessages,
        entry,
        0,
        5_120,
    );

    let model_cases = (0..2)
        .map(|_| {
            value(
                &mut builder,
                None,
                AdapterScalarSource::SelectedModel,
                AdapterTransform::Identity,
            )
        })
        .collect();
    let model = builder.switch(
        Some(key("model")),
        AdapterPresence::Required,
        None,
        AdapterVariantSource::ModelSelection,
        model_cases,
    );

    let description = value(
        &mut builder,
        Some(key("description")),
        AdapterScalarSource::ToolDescription,
        AdapterTransform::Identity,
    );
    let name = value(
        &mut builder,
        Some(key("name")),
        AdapterScalarSource::ToolName,
        AdapterTransform::Identity,
    );
    let schema = value(
        &mut builder,
        Some(key("schema")),
        AdapterScalarSource::ToolSchema,
        AdapterTransform::JsonSubtree,
    );
    let tool = object(
        &mut builder,
        Some(PathSegment::ArrayItem),
        vec![description, name, schema],
    );
    let tools = builder.array(Some(key("tools")), AdapterCollection::Tools, tool, 0, 1_024);

    let cache = omitted(
        &mut builder,
        "cache",
        AdapterPresence::OmitForUnset,
        AdapterPresenceSource::CacheRetention,
    );
    let max_output = omitted(
        &mut builder,
        "maxOutput",
        AdapterPresence::OmitIfNone,
        AdapterPresenceSource::MaxOutput,
    );
    let reasoning = omitted(
        &mut builder,
        "reasoning",
        AdapterPresence::OmitForUnset,
        AdapterPresenceSource::Reasoning,
    );
    let tool_choice = omitted(
        &mut builder,
        "toolChoice",
        AdapterPresence::OmitForUnset,
        AdapterPresenceSource::ToolChoice,
    );
    let root = object(
        &mut builder,
        None,
        vec![
            cache,
            entries,
            max_output,
            model,
            reasoning,
            tool_choice,
            tools,
        ],
    );
    AdapterContractV1 {
        version: 1,
        wire_id: AdapterWireId::OpenAiCompletions,
        model_source: AdapterModelSource::CurrentModel,
        tree: ContractTree {
            root,
            nodes: builder.nodes,
            tables: vec![],
        },
        ordinary_header_rules: vec![],
        decoder_kind: decoder_for(AdapterWireId::OpenAiCompletions),
    }
}

fn value(
    builder: &mut ContractBuilder,
    segment: Option<PathSegment>,
    source: AdapterScalarSource,
    transform: AdapterTransform,
) -> u32 {
    builder.value(segment, AdapterPresence::Required, None, source, transform)
}

fn omitted(
    builder: &mut ContractBuilder,
    name: &str,
    presence: AdapterPresence,
    source: AdapterPresenceSource,
) -> u32 {
    builder.constant(
        Some(key(name)),
        presence,
        Some(source),
        TypedJsonConstant::Null,
    )
}

fn object(builder: &mut ContractBuilder, segment: Option<PathSegment>, children: Vec<u32>) -> u32 {
    builder.object(segment, AdapterPresence::Required, None, children)
}

fn key(value: &str) -> PathSegment {
    PathSegment::Key(value.to_owned())
}

fn string(value: &str) -> AdapterJson {
    AdapterJson::ordinary_string(value)
}

fn json_object(fields: Vec<(&str, AdapterJson)>) -> AdapterJson {
    AdapterJson::Object(
        fields
            .into_iter()
            .map(|(key, value)| (key.to_owned(), value))
            .collect(),
    )
}
