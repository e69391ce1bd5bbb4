//! Literal Mistral tool-result content chunk fixtures.

use mcode_plugin_host::provider_api::{
    AssistantBlock, AssistantMessage, CacheRetention, CapabilitySupport, CatalogEntry, IdText,
    ImageMediaType, ImageMetadata, ImageView, InputModality, Message, ModelSelection,
    OrdinaryHeader, PrepareInput, Reasoning, ReasoningCapability, TextBlock, ToolCallBlock,
    ToolCapability, ToolChoice, ToolDefinition, ToolResultBlock, ToolResultMessage,
    WireJsonArray, WireJsonDocument, WireJsonField, WireJsonNode, WireJsonObject,
};
use mcode_plugin_host::provider_validation::adapter::validate_adapter;
use mcode_plugin_host::provider_validation::adapter::json::AdapterJson;
use mcode_plugin_host::provider_validation::adapter::policy::{
    requires_result_name, status_projection, StatusProjection,
};
use mcode_plugin_host::provider_validation::adapter::types::{
    AdapterCollection, AdapterContractV1, AdapterDecoderKind, AdapterEnumSource,
    AdapterModelSource, AdapterPresence, AdapterPresenceSource, AdapterScalarSource,
    AdapterTransform, AdapterVariantSource, AdapterWireId, ContractArray, ContractCase,
    ContractConstant, ContractNode, ContractNodeBody, ContractObject, ContractSwitch,
    ContractTree, ContractValue, EnumTokenEntry, EnumTokenTable, PathSegment, TypedJsonConstant,
    ValidatedCatalogEntryView,
};

const DIGEST: &str =
    "sha256:0123456789abcdef0123456789abcdef0123456789abcdef0123456789abcdef";

struct DummyFixture {
    contract: AdapterContractV1,
    entry: CatalogEntry,
    original: PrepareInput,
    body: WireJsonDocument,
    headers: Vec<OrdinaryHeader>,
}

#[derive(Default)]
struct ContractBuilder {
    nodes: Vec<ContractNode>,
}

impl DummyFixture {
    fn selected(&self) -> ValidatedCatalogEntryView<'_> {
        ValidatedCatalogEntryView {
            provider_id: Box::leak(Box::new(id("provider"))),
            route_id: Box::leak(Box::new(id("route"))),
            catalog_digest: DIGEST,
            selection: &self.entry.selection,
            current_model: &self.entry.current_model,
            input_modalities: &self.entry.input_modalities,
            tool_capability: &self.entry.tool_capability,
            reasoning_capability: &self.entry.reasoning_capability,
            context_tokens: self.entry.context_tokens,
            max_output_tokens: self.entry.max_output_tokens,
            completion_operation: &self.entry.completion_operation,
        }
    }
}

impl ContractBuilder {
    fn push(
        &mut self,
        segment: Option<PathSegment>,
        presence: AdapterPresence,
        presence_source: Option<AdapterPresenceSource>,
        body: ContractNodeBody,
    ) -> u32 {
        let index = u32::try_from(self.nodes.len()).expect("dummy contract node count");
        self.nodes.push(ContractNode {
            parent: None,
            segment,
            presence,
            presence_source,
            body,
        });
        index
    }

    fn attach(&mut self, parent: u32, children: &[u32]) {
        for child in children {
            self.nodes[*child as usize].parent = Some(parent);
        }
    }

    fn object(
        &mut self,
        segment: Option<PathSegment>,
        presence: AdapterPresence,
        presence_source: Option<AdapterPresenceSource>,
        children: Vec<u32>,
    ) -> u32 {
        let node = self.push(
            segment,
            presence,
            presence_source,
            ContractNodeBody::Object(ContractObject {
                children: children.clone(),
            }),
        );
        self.attach(node, &children);
        node
    }

    fn array(
        &mut self,
        segment: Option<PathSegment>,
        collection: AdapterCollection,
        item: u32,
        min: u32,
        max: u32,
    ) -> u32 {
        let node = self.push(
            segment,
            AdapterPresence::Required,
            None,
            ContractNodeBody::Array(ContractArray {
                collection,
                item,
                min,
                max,
            }),
        );
        self.attach(node, &[item]);
        node
    }

    fn switch(
        &mut self,
        segment: Option<PathSegment>,
        presence: AdapterPresence,
        presence_source: Option<AdapterPresenceSource>,
        source: AdapterVariantSource,
        cases: Vec<u32>,
    ) -> u32 {
        let node = self.push(
            segment,
            presence,
            presence_source,
            ContractNodeBody::Switch(ContractSwitch {
                source,
                cases: cases
                    .iter()
                    .enumerate()
                    .map(|(ordinal, node)| ContractCase {
                        variant_ordinal: ordinal as u8,
                        node: *node,
                    })
                    .collect(),
            }),
        );
        self.attach(node, &cases);
        node
    }

    fn value(
        &mut self,
        segment: Option<PathSegment>,
        presence: AdapterPresence,
        presence_source: Option<AdapterPresenceSource>,
        source: AdapterScalarSource,
        transform: AdapterTransform,
    ) -> u32 {
        self.push(
            segment,
            presence,
            presence_source,
            ContractNodeBody::Value(ContractValue { source, transform }),
        )
    }

    fn constant(
        &mut self,
        segment: Option<PathSegment>,
        presence: AdapterPresence,
        presence_source: Option<AdapterPresenceSource>,
        value: TypedJsonConstant,
    ) -> u32 {
        self.push(
            segment,
            presence,
            presence_source,
            ContractNodeBody::Constant(ContractConstant { value }),
        )
    }
}

fn id(text: &str) -> IdText {
    IdText {
        text: text.to_owned(),
        canonical: true,
    }
}

fn catalog_entry(model: &str) -> CatalogEntry {
    CatalogEntry {
        selection: ModelSelection::Exact(id(model)),
        current_model: id(model),
        display_name: Some("Model".to_owned()),
        input_modalities: vec![InputModality::Text, InputModality::Image],
        tool_capability: supported_tools(),
        reasoning_capability: supported_reasoning(),
        context_tokens: Some(4_096),
        max_output_tokens: Some(1_024),
        completion_operation: id("complete"),
    }
}

fn empty_object() -> WireJsonDocument {
    WireJsonDocument {
        root: 0,
        nodes: vec![WireJsonNode::ObjectValue(WireJsonObject { fields: vec![] })],
    }
}

fn prepare_input() -> PrepareInput {
    PrepareInput {
        provider_id: id("provider"),
        route_id: id("route"),
        catalog_digest: DIGEST.to_owned(),
        selection: ModelSelection::Exact(id("model")),
        current_model: id("model"),
        operation_id: id("complete"),
        request_id: id("request-1"),
        turn_id: id("turn-1"),
        system: vec![],
        messages: vec![],
        tools: vec![],
        tool_choice: ToolChoice::Unset,
        reasoning: Reasoning::Unset,
        cache_retention: CacheRetention::Unset,
        max_output_tokens: None,
    }
}

fn wire_document(value: &AdapterJson) -> WireJsonDocument {
    let mut nodes = Vec::new();
    let root = test_json_append(value, &mut nodes);
    WireJsonDocument { root, nodes }
}

fn test_json_append(value: &AdapterJson, nodes: &mut Vec<WireJsonNode>) -> u32 {
    let node = match value {
        AdapterJson::Null => WireJsonNode::NullValue,
        AdapterJson::Boolean(value) => WireJsonNode::BooleanValue(*value),
        AdapterJson::Number(value) => WireJsonNode::NumberValue(value.clone()),
        AdapterJson::String { value, .. } => WireJsonNode::StringValue(value.clone()),
        AdapterJson::Array(items) => {
            let items = items.iter().map(|item| test_json_append(item, nodes)).collect();
            WireJsonNode::ArrayValue(WireJsonArray { items })
        }
        AdapterJson::Object(fields) => {
            let fields = fields
                .iter()
                .map(|(key, value)| WireJsonField {
                    key: key.clone(),
                    value: test_json_append(value, nodes),
                })
                .collect();
            WireJsonNode::ObjectValue(WireJsonObject { fields })
        }
    };
    let index = u32::try_from(nodes.len()).expect("test wire node count");
    nodes.push(node);
    index
}

fn wire_contract(wire: AdapterWireId) -> AdapterContractV1 {
    let mut builder = ContractBuilder::default();
    let mut tables = Vec::new();

    let model_cases = (0..2)
        .map(|_| {
            builder.value(
                None,
                AdapterPresence::Required,
                None,
                AdapterScalarSource::SelectedModel,
                AdapterTransform::Identity,
            )
        })
        .collect();
    let model = builder.switch(
        Some(wire_key("model")),
        AdapterPresence::Required,
        None,
        AdapterVariantSource::ModelSelection,
        model_cases,
    );

    let system_item = builder.value(
        Some(PathSegment::ArrayItem),
        AdapterPresence::Required,
        None,
        AdapterScalarSource::SystemItem,
        AdapterTransform::Identity,
    );
    let system = builder.array(
        Some(wire_key("system")),
        AdapterCollection::System,
        system_item,
        0,
        1_024,
    );

    let call_arguments = wire_value(
        &mut builder,
        "arguments",
        AdapterScalarSource::ToolCallArguments,
        AdapterTransform::JsonSubtree,
    );
    let call_id = wire_value(
        &mut builder,
        "callId",
        AdapterScalarSource::ToolCallId,
        AdapterTransform::Identity,
    );
    let call_name = wire_value(
        &mut builder,
        "name",
        AdapterScalarSource::ToolCallName,
        AdapterTransform::Identity,
    );
    let call = wire_object(&mut builder, None, vec![call_arguments, call_id, call_name]);
    let assistant_text = wire_constant(&mut builder, None, TypedJsonConstant::Null);
    let assistant_reasoning = wire_constant(&mut builder, None, TypedJsonConstant::Null);
    let assistant_item = builder.switch(
        Some(PathSegment::ArrayItem),
        AdapterPresence::Required,
        None,
        AdapterVariantSource::AssistantBlock,
        vec![assistant_text, assistant_reasoning, call],
    );
    let assistant_blocks = builder.array(
        Some(wire_key("blocks")),
        AdapterCollection::Blocks,
        assistant_item,
        1,
        4_096,
    );
    let assistant = wire_object(&mut builder, None, vec![assistant_blocks]);

    let result_call_id = wire_value(
        &mut builder,
        "callId",
        AdapterScalarSource::ToolResultCallId,
        AdapterTransform::Identity,
    );
    let mut result_children = Vec::new();
    if wire != AdapterWireId::MistralConversations {
        let result_text = builder.value(
            None,
            AdapterPresence::Required,
            None,
            AdapterScalarSource::BlockText,
            AdapterTransform::Identity,
        );
        let result_image = wire_constant(&mut builder, None, TypedJsonConstant::Null);
        let result_item = builder.switch(
            Some(PathSegment::ArrayItem),
            AdapterPresence::Required,
            None,
            AdapterVariantSource::ToolResultBlock,
            vec![result_text, result_image],
        );
        let result_blocks = builder.array(
            Some(wire_key("blocks")),
            AdapterCollection::Blocks,
            result_item,
            1,
            4_096,
        );
        result_children.push(result_blocks);
    }
    result_children.push(result_call_id);
    if wire == AdapterWireId::MistralConversations {
        result_children.push(wire_value(
            &mut builder,
            "content",
            AdapterScalarSource::MistralToolResultContent,
            AdapterTransform::MistralToolResultContent,
        ));
    }
    if matches!(status_projection(wire), StatusProjection::Boolean) {
        result_children.push(wire_value(
            &mut builder,
            "isError",
            AdapterScalarSource::ToolResultIsError,
            AdapterTransform::Identity,
        ));
    }
    if requires_result_name(wire) {
        result_children.push(wire_value(
            &mut builder,
            "name",
            AdapterScalarSource::ToolResultName,
            AdapterTransform::Identity,
        ));
    }
    if status_projection(wire) == StatusProjection::Switch {
        let success = wire_constant(
            &mut builder,
            None,
            TypedJsonConstant::String("success-branch".to_owned()),
        );
        let error = wire_constant(
            &mut builder,
            None,
            TypedJsonConstant::String("error-branch".to_owned()),
        );
        result_children.push(builder.switch(
            Some(wire_key("outcome")),
            AdapterPresence::Required,
            None,
            AdapterVariantSource::ToolResultStatus,
            vec![success, error],
        ));
    }
    if status_projection(wire) == StatusProjection::Scalar {
        tables.push(EnumTokenTable {
            source: AdapterEnumSource::ToolResultStatus,
            entries: vec![
                EnumTokenEntry {
                    variant_ordinal: 0,
                    token: "success".to_owned(),
                },
                EnumTokenEntry {
                    variant_ordinal: 1,
                    token: "error".to_owned(),
                },
            ],
        });
        result_children.push(wire_value(
            &mut builder,
            "status",
            AdapterScalarSource::ToolResultStatus,
            AdapterTransform::EnumToken(0),
        ));
    }
    let result = wire_object(&mut builder, None, result_children);
    let user = wire_constant(&mut builder, None, TypedJsonConstant::Null);
    let message_item = builder.switch(
        Some(PathSegment::ArrayItem),
        AdapterPresence::Required,
        None,
        AdapterVariantSource::Message,
        vec![user, assistant, result],
    );
    let messages = builder.array(
        Some(wire_key("messages")),
        AdapterCollection::Messages,
        message_item,
        0,
        4_096,
    );

    let description = wire_value(
        &mut builder,
        "description",
        AdapterScalarSource::ToolDescription,
        AdapterTransform::Identity,
    );
    let name = wire_value(
        &mut builder,
        "name",
        AdapterScalarSource::ToolName,
        AdapterTransform::Identity,
    );
    let schema = wire_value(
        &mut builder,
        "schema",
        AdapterScalarSource::ToolSchema,
        AdapterTransform::JsonSubtree,
    );
    let tool = wire_object(
        &mut builder,
        Some(PathSegment::ArrayItem),
        vec![description, name, schema],
    );
    let tools = builder.array(Some(wire_key("tools")), AdapterCollection::Tools, tool, 0, 1_024);

    let cache = wire_omitted(
        &mut builder,
        "cache",
        AdapterPresence::OmitForUnset,
        AdapterPresenceSource::CacheRetention,
    );
    let max_output = wire_omitted(
        &mut builder,
        "maxOutput",
        AdapterPresence::OmitIfNone,
        AdapterPresenceSource::MaxOutput,
    );
    let reasoning = wire_omitted(
        &mut builder,
        "reasoning",
        AdapterPresence::OmitForUnset,
        AdapterPresenceSource::Reasoning,
    );
    let tool_choice = wire_omitted(
        &mut builder,
        "toolChoice",
        AdapterPresence::OmitForUnset,
        AdapterPresenceSource::ToolChoice,
    );
    let root = wire_object(
        &mut builder,
        None,
        vec![
            cache,
            max_output,
            messages,
            model,
            reasoning,
            system,
            tool_choice,
            tools,
        ],
    );
    AdapterContractV1 {
        version: 1,
        wire_id: wire,
        model_source: AdapterModelSource::CurrentModel,
        tree: ContractTree {
            root,
            nodes: builder.nodes,
            tables,
        },
        ordinary_header_rules: vec![],
        decoder_kind: decoder_for(wire),
    }
}

fn wire_value(
    builder: &mut ContractBuilder,
    name: &str,
    source: AdapterScalarSource,
    transform: AdapterTransform,
) -> u32 {
    builder.value(
        Some(wire_key(name)),
        AdapterPresence::Required,
        None,
        source,
        transform,
    )
}

fn wire_constant(
    builder: &mut ContractBuilder,
    segment: Option<PathSegment>,
    value: TypedJsonConstant,
) -> u32 {
    builder.constant(segment, AdapterPresence::Required, None, value)
}

fn wire_omitted(
    builder: &mut ContractBuilder,
    name: &str,
    presence: AdapterPresence,
    source: AdapterPresenceSource,
) -> u32 {
    builder.constant(
        Some(wire_key(name)),
        presence,
        Some(source),
        TypedJsonConstant::Null,
    )
}

fn wire_object(builder: &mut ContractBuilder, segment: Option<PathSegment>, children: Vec<u32>) -> u32 {
    builder.object(segment, AdapterPresence::Required, None, children)
}

fn wire_key(value: &str) -> PathSegment {
    PathSegment::Key(value.to_owned())
}

fn supported_tools() -> ToolCapability {
    ToolCapability {
        tools: CapabilitySupport::Supported,
        auto_choice: CapabilitySupport::Supported,
        none_choice: CapabilitySupport::Supported,
        specific_choice: CapabilitySupport::Supported,
    }
}

fn supported_reasoning() -> ReasoningCapability {
    ReasoningCapability {
        reasoning: CapabilitySupport::Supported,
        effort: CapabilitySupport::Supported,
        budget: CapabilitySupport::Supported,
        proof: CapabilitySupport::Supported,
    }
}

fn decoder_for(wire_id: AdapterWireId) -> AdapterDecoderKind {
    match wire_id {
        AdapterWireId::AnthropicMessages => AdapterDecoderKind::AnthropicMessages,
        AdapterWireId::OpenAiCompletions => AdapterDecoderKind::OpenAiCompletions,
        AdapterWireId::OpenAiResponses => AdapterDecoderKind::OpenAiResponses,
        AdapterWireId::OpenAiCodexResponses => AdapterDecoderKind::OpenAiCodexResponses,
        AdapterWireId::AzureOpenAiResponses => AdapterDecoderKind::AzureOpenAiResponses,
        AdapterWireId::GoogleGenerativeAi => AdapterDecoderKind::GoogleGenerativeAi,
        AdapterWireId::GoogleVertex => AdapterDecoderKind::GoogleVertex,
        AdapterWireId::MistralConversations => AdapterDecoderKind::MistralConversations,
        AdapterWireId::BedrockConverseStream => AdapterDecoderKind::BedrockConverseStream,
        AdapterWireId::PiMessages => AdapterDecoderKind::PiMessages,
    }
}

#[test]
fn mistral_nonempty_text_chunks_distinguish_success_and_error() {
    for (is_error, text) in [(false, "result"), (true, "[tool error] result")] {
        assert_mistral(
            vec![text_block(" result ")],
            is_error,
            vec![text_chunk(text)],
        );
    }
}

#[test]
fn mistral_empty_text_and_pure_image_use_exact_placeholders() {
    assert_mistral(
        vec![text_block(" \t\n")],
        false,
        vec![text_chunk("(no tool output)")],
    );
    assert_mistral(
        vec![image_block(ImageMediaType::Png, 1)],
        false,
        vec![
            text_chunk("(see attached image)"),
            image_chunk("data:image/png;base64,AQ=="),
        ],
    );
}

#[test]
fn mistral_mixed_content_keeps_text_and_image_declaration_order() {
    assert_mistral(
        vec![
            text_block(" first "),
            image_block(ImageMediaType::Png, 1),
            text_block("second "),
            image_block(ImageMediaType::Jpeg, 2),
        ],
        false,
        vec![
            text_chunk("first \nsecond"),
            image_chunk("data:image/png;base64,AQ=="),
            image_chunk("data:image/jpeg;base64,Ag=="),
        ],
    );
}

fn assert_mistral(blocks: Vec<ToolResultBlock>, is_error: bool, content: Vec<AdapterJson>) {
    let fixture = mistral_fixture(blocks, is_error, content);
    assert!(
        validate_adapter(
            &fixture.contract,
            fixture.selected(),
            &fixture.original,
            &fixture.body,
            &fixture.headers,
        )
        .is_ok()
    );
}

fn mistral_fixture(
    blocks: Vec<ToolResultBlock>,
    is_error: bool,
    content: Vec<AdapterJson>,
) -> DummyFixture {
    let mut original = prepare_input();
    original.tools = vec![ToolDefinition {
        name: "tool".to_owned(),
        description: "Use tool".to_owned(),
        input_schema: empty_object(),
    }];
    original.messages = vec![
        Message::Assistant(AssistantMessage {
            blocks: vec![AssistantBlock::ToolCall(ToolCallBlock {
                call_id: "call-1".to_owned(),
                name: "tool".to_owned(),
                arguments: empty_object(),
            })],
        }),
        Message::ToolResult(ToolResultMessage {
            call_id: "call-1".to_owned(),
            blocks,
            is_error,
        }),
    ];
    let expected = object(vec![
        (
            "messages",
            AdapterJson::Array(vec![
                object(vec![(
                    "blocks",
                    AdapterJson::Array(vec![object(vec![
                        ("arguments", object(vec![])),
                        ("callId", string("call-1")),
                        ("name", string("tool")),
                    ])]),
                )]),
                object(vec![
                    ("callId", string("call-1")),
                    ("content", AdapterJson::Array(content)),
                    ("name", string("tool")),
                ]),
            ]),
        ),
        ("model", string("model")),
        ("system", AdapterJson::Array(vec![])),
        (
            "tools",
            AdapterJson::Array(vec![object(vec![
                ("description", string("Use tool")),
                ("name", string("tool")),
                ("schema", object(vec![])),
            ])]),
        ),
    ]);
    DummyFixture {
        contract: wire_contract(AdapterWireId::MistralConversations),
        entry: catalog_entry("model"),
        original,
        body: wire_document(&expected),
        headers: vec![],
    }
}

fn text_block(value: &str) -> ToolResultBlock {
    ToolResultBlock::Text(TextBlock {
        text: value.to_owned(),
    })
}

fn image_block(media_type: ImageMediaType, byte: u8) -> ToolResultBlock {
    ToolResultBlock::Image(ImageView {
        stamp: "img1-0123456789abcdef0123456789abcdef".to_owned(),
        media_type,
        bytes: vec![byte],
        metadata: ImageMetadata {
            width: 1,
            height: 1,
            frames: 1,
        },
    })
}

fn text_chunk(value: &str) -> AdapterJson {
    object(vec![("text", string(value)), ("type", string("text"))])
}

fn image_chunk(value: &str) -> AdapterJson {
    object(vec![
        ("image_url", string(value)),
        ("type", string("image_url")),
    ])
}

fn string(value: &str) -> AdapterJson {
    AdapterJson::ordinary_string(value)
}

fn object(fields: Vec<(&str, AdapterJson)>) -> AdapterJson {
    AdapterJson::Object(
        fields
            .into_iter()
            .map(|(key, value)| (key.to_owned(), value))
            .collect(),
    )
}
