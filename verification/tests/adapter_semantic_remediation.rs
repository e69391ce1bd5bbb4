//! Static semantic regressions for audited contract paths.

use mcode_plugin_host::provider_api::{
    AssistantBlock, AssistantMessage, CacheRetention, CapabilitySupport, CatalogEntry,
    EnabledReasoning, IdText, ImageMediaType, ImageMetadata, ImageView, InputModality, Message,
    ModelSelection, OrdinaryHeader, PrepareInput, Reasoning, ReasoningBlock,
    ReasoningCapability, ReasoningEffort, ReasoningKind, ReasoningProofView, SpecificToolChoice,
    TextBlock, ToolCallBlock, ToolCapability, ToolChoice, ToolDefinition, ToolResultBlock,
    ToolResultMessage, UserBlock, UserMessage, WireJsonArray, WireJsonDocument, WireJsonField,
    WireJsonNode, WireJsonObject,
};
use mcode_plugin_host::provider_validation::adapter::json::AdapterJson;
use mcode_plugin_host::provider_validation::adapter::structure::validate_contract;
use mcode_plugin_host::provider_validation::adapter::types::{
    AdapterCollection, AdapterContractV1, AdapterDecoderKind, AdapterEnumSource,
    AdapterModelSource, AdapterPresence, AdapterPresenceSource, AdapterScalarSource,
    AdapterTransform, AdapterVariantSource, AdapterWireId, ContractArray, ContractCase,
    ContractConstant, ContractNode, ContractNodeBody, ContractObject, ContractSwitch,
    ContractTree, ContractValue, EnumTokenEntry, EnumTokenTable, PathSegment, TypedJsonConstant,
    ValidatedCatalogEntryView,
};

const DIGEST: &str =
    "sha256:0123456789abcdef0123456789abcdef0123456789abcdef0123456789abcdef";

#[derive(Default)]
struct ContractBuilder {
    nodes: Vec<ContractNode>,
}

#[derive(Default)]
struct ExhaustiveContract {
    builder: ContractBuilder,
    tables: Vec<EnumTokenTable>,
}

struct DummyFixture {
    contract: AdapterContractV1,
    entry: CatalogEntry,
    original: PrepareInput,
    body: WireJsonDocument,
    headers: Vec<OrdinaryHeader>,
}

impl ContractBuilder {
    fn push(
        &mut self,
        segment: Option<PathSegment>,
        presence: AdapterPresence,
        presence_source: Option<AdapterPresenceSource>,
        body: ContractNodeBody,
    ) -> u32 {
        let index = u32::try_from(self.nodes.len()).expect("dummy contract node count");
        self.nodes.push(ContractNode {
            parent: None,
            segment,
            presence,
            presence_source,
            body,
        });
        index
    }

    fn attach(&mut self, parent: u32, children: &[u32]) {
        for child in children {
            self.nodes[*child as usize].parent = Some(parent);
        }
    }

    fn object(
        &mut self,
        segment: Option<PathSegment>,
        presence: AdapterPresence,
        presence_source: Option<AdapterPresenceSource>,
        children: Vec<u32>,
    ) -> u32 {
        let node = self.push(
            segment,
            presence,
            presence_source,
            ContractNodeBody::Object(ContractObject {
                children: children.clone(),
            }),
        );
        self.attach(node, &children);
        node
    }

    fn array(
        &mut self,
        segment: Option<PathSegment>,
        collection: AdapterCollection,
        item: u32,
        min: u32,
        max: u32,
    ) -> u32 {
        let node = self.push(
            segment,
            AdapterPresence::Required,
            None,
            ContractNodeBody::Array(ContractArray {
                collection,
                item,
                min,
                max,
            }),
        );
        self.attach(node, &[item]);
        node
    }

    fn switch(
        &mut self,
        segment: Option<PathSegment>,
        presence: AdapterPresence,
        presence_source: Option<AdapterPresenceSource>,
        source: AdapterVariantSource,
        cases: Vec<u32>,
    ) -> u32 {
        let node = self.push(
            segment,
            presence,
            presence_source,
            ContractNodeBody::Switch(ContractSwitch {
                source,
                cases: cases
                    .iter()
                    .enumerate()
                    .map(|(ordinal, node)| ContractCase {
                        variant_ordinal: ordinal as u8,
                        node: *node,
                    })
                    .collect(),
            }),
        );
        self.attach(node, &cases);
        node
    }

    fn value(
        &mut self,
        segment: Option<PathSegment>,
        presence: AdapterPresence,
        presence_source: Option<AdapterPresenceSource>,
        source: AdapterScalarSource,
        transform: AdapterTransform,
    ) -> u32 {
        self.push(
            segment,
            presence,
            presence_source,
            ContractNodeBody::Value(ContractValue { source, transform }),
        )
    }

    fn constant(
        &mut self,
        segment: Option<PathSegment>,
        presence: AdapterPresence,
        presence_source: Option<AdapterPresenceSource>,
        value: TypedJsonConstant,
    ) -> u32 {
        self.push(
            segment,
            presence,
            presence_source,
            ContractNodeBody::Constant(ContractConstant { value }),
        )
    }
}

impl ExhaustiveContract {
    fn table(&mut self, source: AdapterEnumSource, tokens: &[&str]) -> u16 {
        let index = u16::try_from(self.tables.len()).expect("test table count");
        self.tables.push(EnumTokenTable {
            source,
            entries: tokens
                .iter()
                .enumerate()
                .map(|(ordinal, token)| EnumTokenEntry {
                    variant_ordinal: ordinal as u8,
                    token: (*token).to_owned(),
                })
                .collect(),
        });
        index
    }

    fn value(
        &mut self,
        name: &str,
        source: AdapterScalarSource,
        transform: AdapterTransform,
    ) -> u32 {
        self.builder.value(
            Some(exhaustive_key(name)),
            AdapterPresence::Required,
            None,
            source,
            transform,
        )
    }

    fn enum_value(&mut self, name: &str, source: AdapterScalarSource, table: u16) -> u32 {
        self.value(name, source, AdapterTransform::EnumToken(table))
    }

    fn object(&mut self, segment: Option<PathSegment>, children: Vec<u32>) -> u32 {
        self.builder
            .object(segment, AdapterPresence::Required, None, children)
    }

    fn user_blocks(&mut self, kinds: u16) -> u32 {
        let text_kind = self.enum_value("kind", AdapterScalarSource::BlockKind, kinds);
        let text_value = self.value(
            "text",
            AdapterScalarSource::BlockText,
            AdapterTransform::Identity,
        );
        let text = self.object(None, vec![text_kind, text_value]);
        let data = self.value(
            "data",
            AdapterScalarSource::ImageDataUri,
            AdapterTransform::DataUri,
        );
        let frames = self.value(
            "frames",
            AdapterScalarSource::ImageFrames,
            AdapterTransform::CheckedU32,
        );
        let height = self.value(
            "height",
            AdapterScalarSource::ImageHeight,
            AdapterTransform::CheckedU32,
        );
        let image_kind = self.enum_value("kind", AdapterScalarSource::BlockKind, kinds);
        let width = self.value(
            "width",
            AdapterScalarSource::ImageWidth,
            AdapterTransform::CheckedU32,
        );
        let image = self.object(None, vec![data, frames, height, image_kind, width]);
        let item = self.builder.switch(
            Some(PathSegment::ArrayItem),
            AdapterPresence::Required,
            None,
            AdapterVariantSource::UserBlock,
            vec![text, image],
        );
        self.builder.array(
            Some(exhaustive_key("blocks")),
            AdapterCollection::Blocks,
            item,
            1,
            4_096,
        )
    }

    fn assistant_blocks(&mut self, kinds: u16, reasoning_kinds: u16) -> u32 {
        let text_kind = self.enum_value("kind", AdapterScalarSource::BlockKind, kinds);
        let text_value = self.value(
            "text",
            AdapterScalarSource::BlockText,
            AdapterTransform::Identity,
        );
        let text = self.object(None, vec![text_kind, text_value]);

        let reasoning_kind = self.enum_value("kind", AdapterScalarSource::BlockKind, kinds);
        let proof = self.builder.value(
            Some(exhaustive_key("proof")),
            AdapterPresence::OmitIfNone,
            Some(AdapterPresenceSource::ReasoningProof),
            AdapterScalarSource::Proof,
            AdapterTransform::Base64StandardPadded,
        );
        let source_kind = self.enum_value(
            "reasoningKind",
            AdapterScalarSource::ReasoningKind,
            reasoning_kinds,
        );
        let reasoning_text = self.value(
            "text",
            AdapterScalarSource::BlockText,
            AdapterTransform::Identity,
        );
        let reasoning = self.object(
            None,
            vec![reasoning_kind, proof, source_kind, reasoning_text],
        );

        let arguments = self.value(
            "arguments",
            AdapterScalarSource::ToolCallArguments,
            AdapterTransform::JsonSubtree,
        );
        let call_id = self.value(
            "callId",
            AdapterScalarSource::ToolCallId,
            AdapterTransform::Identity,
        );
        let call_kind = self.enum_value("kind", AdapterScalarSource::BlockKind, kinds);
        let call_name = self.value(
            "name",
            AdapterScalarSource::ToolCallName,
            AdapterTransform::Identity,
        );
        let call = self.object(None, vec![arguments, call_id, call_kind, call_name]);

        let item = self.builder.switch(
            Some(PathSegment::ArrayItem),
            AdapterPresence::Required,
            None,
            AdapterVariantSource::AssistantBlock,
            vec![text, reasoning, call],
        );
        self.builder.array(
            Some(exhaustive_key("blocks")),
            AdapterCollection::Blocks,
            item,
            1,
            4_096,
        )
    }

    fn result_blocks(&mut self, kinds: u16) -> u32 {
        let text_kind = self.enum_value("kind", AdapterScalarSource::BlockKind, kinds);
        let text_value = self.value(
            "text",
            AdapterScalarSource::BlockText,
            AdapterTransform::Identity,
        );
        let text = self.object(None, vec![text_kind, text_value]);
        let data = self.value(
            "data",
            AdapterScalarSource::ImageDataUri,
            AdapterTransform::DataUri,
        );
        let image_kind = self.enum_value("kind", AdapterScalarSource::BlockKind, kinds);
        let image = self.object(None, vec![data, image_kind]);
        let item = self.builder.switch(
            Some(PathSegment::ArrayItem),
            AdapterPresence::Required,
            None,
            AdapterVariantSource::ToolResultBlock,
            vec![text, image],
        );
        self.builder.array(
            Some(exhaustive_key("blocks")),
            AdapterCollection::Blocks,
            item,
            1,
            4_096,
        )
    }
}

impl DummyFixture {
    fn selected(&self) -> ValidatedCatalogEntryView<'_> {
        ValidatedCatalogEntryView {
            provider_id: Box::leak(Box::new(id("provider"))),
            route_id: Box::leak(Box::new(id("route"))),
            catalog_digest: DIGEST,
            selection: &self.entry.selection,
            current_model: &self.entry.current_model,
            input_modalities: &self.entry.input_modalities,
            tool_capability: &self.entry.tool_capability,
            reasoning_capability: &self.entry.reasoning_capability,
            context_tokens: self.entry.context_tokens,
            max_output_tokens: self.entry.max_output_tokens,
            completion_operation: &self.entry.completion_operation,
        }
    }
}

fn id(text: &str) -> IdText {
    IdText {
        text: text.to_owned(),
        canonical: true,
    }
}

fn decoder_for(wire_id: AdapterWireId) -> AdapterDecoderKind {
    match wire_id {
        AdapterWireId::AnthropicMessages => AdapterDecoderKind::AnthropicMessages,
        AdapterWireId::OpenAiCompletions => AdapterDecoderKind::OpenAiCompletions,
        AdapterWireId::OpenAiResponses => AdapterDecoderKind::OpenAiResponses,
        AdapterWireId::OpenAiCodexResponses => AdapterDecoderKind::OpenAiCodexResponses,
        AdapterWireId::AzureOpenAiResponses => AdapterDecoderKind::AzureOpenAiResponses,
        AdapterWireId::GoogleGenerativeAi => AdapterDecoderKind::GoogleGenerativeAi,
        AdapterWireId::GoogleVertex => AdapterDecoderKind::GoogleVertex,
        AdapterWireId::MistralConversations => AdapterDecoderKind::MistralConversations,
        AdapterWireId::BedrockConverseStream => AdapterDecoderKind::BedrockConverseStream,
        AdapterWireId::PiMessages => AdapterDecoderKind::PiMessages,
    }
}

fn exhaustive_fixture(with_proof: bool) -> DummyFixture {
    let expected = exhaustive_exhaustive_expected(with_proof);
    let mut original = prepare_input();
    original.system = vec!["system one".to_owned(), "system two".to_owned()];
    original.tools = vec![ToolDefinition {
        name: "tool".to_owned(),
        description: "Use tool".to_owned(),
        input_schema: wire_document(&exhaustive_object(vec![("type", exhaustive_string("object"))])),
    }];
    original.messages = vec![
        Message::User(UserMessage {
            blocks: vec![
                UserBlock::Text(exhaustive_text("hello")),
                UserBlock::Image(exhaustive_image(ImageMediaType::Png, &[1, 2], 3, 4, 1)),
            ],
        }),
        Message::Assistant(AssistantMessage {
            blocks: vec![
                AssistantBlock::Text(exhaustive_text("answer")),
                AssistantBlock::Reasoning(ReasoningBlock {
                    kind: ReasoningKind::Thinking,
                    text: "thought".to_owned(),
                    proof: with_proof.then(|| ReasoningProofView {
                        stamp: "prf1-0123456789abcdef0123456789abcdef".to_owned(),
                        source_request_id: id("request-0"),
                        source_turn_id: id("turn-0"),
                        source_content_index: 0,
                        reasoning_kind: ReasoningKind::Thinking,
                        proof: vec![0xff],
                    }),
                }),
                exhaustive_tool_call("call-1"),
                exhaustive_tool_call("call-2"),
            ],
        }),
        Message::ToolResult(ToolResultMessage {
            call_id: "call-1".to_owned(),
            blocks: vec![
                ToolResultBlock::Text(exhaustive_text("first result")),
                ToolResultBlock::Image(exhaustive_image(ImageMediaType::Jpeg, &[3], 5, 6, 1)),
            ],
            is_error: false,
        }),
        Message::ToolResult(ToolResultMessage {
            call_id: "call-2".to_owned(),
            blocks: vec![ToolResultBlock::Text(exhaustive_text("second result"))],
            is_error: true,
        }),
    ];
    original.tool_choice = ToolChoice::Specific(SpecificToolChoice {
        name: "tool".to_owned(),
    });
    original.reasoning = Reasoning::Enabled(EnabledReasoning {
        effort: Some(ReasoningEffort::Low),
        budget_tokens: Some(64),
    });
    original.cache_retention = CacheRetention::Session;
    original.max_output_tokens = Some(128);

    DummyFixture {
        contract: exhaustive_exhaustive_contract(),
        entry: catalog_entry("model"),
        original,
        body: wire_document(&expected),
        headers: vec![],
    }
}

fn exhaustive_exhaustive_contract() -> AdapterContractV1 {
    let mut contract = ExhaustiveContract::default();
    let selection = contract.table(AdapterEnumSource::SelectionKind, &["exact", "alias"]);
    let messages = contract.table(
        AdapterEnumSource::MessageKind,
        &["user", "assistant", "tool"],
    );
    let users = contract.table(AdapterEnumSource::UserBlockKind, &["text", "image"]);
    let assistants = contract.table(
        AdapterEnumSource::AssistantBlockKind,
        &["text", "reasoning", "tool"],
    );
    let results = contract.table(AdapterEnumSource::ToolResultBlockKind, &["text", "image"]);
    let reasoning_kinds =
        contract.table(AdapterEnumSource::ReasoningKind, &["thinking", "summary"]);
    let choices = contract.table(
        AdapterEnumSource::ToolChoice,
        &["unset", "auto", "none", "specific"],
    );
    let reasoning_modes = contract.table(
        AdapterEnumSource::ReasoningMode,
        &["unset", "disabled", "enabled"],
    );
    let efforts = contract.table(
        AdapterEnumSource::ReasoningEffort,
        &["minimal", "low", "medium", "high"],
    );
    let cache = contract.table(
        AdapterEnumSource::CacheRetention,
        &["unset", "none", "request", "session"],
    );

    let model_cases = (0..2)
        .map(|_| {
            let kind = contract.enum_value("kind", AdapterScalarSource::SelectionKind, selection);
            let value = contract.value(
                "value",
                AdapterScalarSource::SelectedModel,
                AdapterTransform::Identity,
            );
            contract.object(None, vec![kind, value])
        })
        .collect();
    let model = contract.builder.switch(
        Some(exhaustive_key("model")),
        AdapterPresence::Required,
        None,
        AdapterVariantSource::ModelSelection,
        model_cases,
    );

    let system_item = contract.builder.value(
        Some(PathSegment::ArrayItem),
        AdapterPresence::Required,
        None,
        AdapterScalarSource::SystemItem,
        AdapterTransform::Identity,
    );
    let system = contract.builder.array(
        Some(exhaustive_key("system")),
        AdapterCollection::System,
        system_item,
        0,
        1_024,
    );

    let user_blocks = contract.user_blocks(users);
    let user_role = contract.enum_value("role", AdapterScalarSource::MessageRole, messages);
    let user = contract.object(None, vec![user_blocks, user_role]);

    let assistant_blocks = contract.assistant_blocks(assistants, reasoning_kinds);
    let assistant_role = contract.enum_value("role", AdapterScalarSource::MessageRole, messages);
    let assistant = contract.object(None, vec![assistant_blocks, assistant_role]);

    let result_blocks = contract.result_blocks(results);
    let result_call = contract.value(
        "callId",
        AdapterScalarSource::ToolResultCallId,
        AdapterTransform::Identity,
    );
    let result_error = contract.value(
        "isError",
        AdapterScalarSource::ToolResultIsError,
        AdapterTransform::Identity,
    );
    let result_role = contract.enum_value("role", AdapterScalarSource::MessageRole, messages);
    let result = contract.object(
        None,
        vec![result_blocks, result_call, result_error, result_role],
    );

    let message_item = contract.builder.switch(
        Some(PathSegment::ArrayItem),
        AdapterPresence::Required,
        None,
        AdapterVariantSource::Message,
        vec![user, assistant, result],
    );
    let message_array = contract.builder.array(
        Some(exhaustive_key("messages")),
        AdapterCollection::Messages,
        message_item,
        0,
        4_096,
    );

    let tool_description = contract.value(
        "description",
        AdapterScalarSource::ToolDescription,
        AdapterTransform::Identity,
    );
    let tool_name = contract.value(
        "name",
        AdapterScalarSource::ToolName,
        AdapterTransform::Identity,
    );
    let tool_schema = contract.value(
        "schema",
        AdapterScalarSource::ToolSchema,
        AdapterTransform::JsonSubtree,
    );
    let tool_item = contract.object(
        Some(PathSegment::ArrayItem),
        vec![tool_description, tool_name, tool_schema],
    );
    let tools = contract.builder.array(
        Some(exhaustive_key("tools")),
        AdapterCollection::Tools,
        tool_item,
        0,
        1_024,
    );

    let cache_cases = (0..4)
        .map(|_| {
            contract.builder.value(
                None,
                AdapterPresence::Required,
                None,
                AdapterScalarSource::CacheRetention,
                AdapterTransform::EnumToken(cache),
            )
        })
        .collect();
    let cache_node = contract.builder.switch(
        Some(exhaustive_key("cache")),
        AdapterPresence::OmitForUnset,
        Some(AdapterPresenceSource::CacheRetention),
        AdapterVariantSource::CacheRetention,
        cache_cases,
    );

    let max_output = contract.builder.value(
        Some(exhaustive_key("maxOutput")),
        AdapterPresence::OmitIfNone,
        Some(AdapterPresenceSource::MaxOutput),
        AdapterScalarSource::MaxOutput,
        AdapterTransform::CheckedU64,
    );

    let reasoning_cases = (0..2)
        .map(|_| {
            contract.builder.value(
                None,
                AdapterPresence::Required,
                None,
                AdapterScalarSource::ReasoningMode,
                AdapterTransform::EnumToken(reasoning_modes),
            )
        })
        .collect::<Vec<_>>();
    let budget = contract.builder.value(
        Some(exhaustive_key("budget")),
        AdapterPresence::OmitIfNone,
        Some(AdapterPresenceSource::ReasoningBudget),
        AdapterScalarSource::ReasoningBudget,
        AdapterTransform::CheckedU64,
    );
    let effort = contract.builder.value(
        Some(exhaustive_key("effort")),
        AdapterPresence::OmitIfNone,
        Some(AdapterPresenceSource::ReasoningEffort),
        AdapterScalarSource::ReasoningEffort,
        AdapterTransform::EnumToken(efforts),
    );
    let mode = contract.enum_value("mode", AdapterScalarSource::ReasoningMode, reasoning_modes);
    let enabled = contract.object(None, vec![budget, effort, mode]);
    let reasoning = contract.builder.switch(
        Some(exhaustive_key("reasoning")),
        AdapterPresence::OmitForUnset,
        Some(AdapterPresenceSource::Reasoning),
        AdapterVariantSource::Reasoning,
        vec![reasoning_cases[0], reasoning_cases[1], enabled],
    );

    let mut choice_cases = (0..3)
        .map(|_| {
            contract.builder.value(
                None,
                AdapterPresence::Required,
                None,
                AdapterScalarSource::ToolChoiceKind,
                AdapterTransform::EnumToken(choices),
            )
        })
        .collect::<Vec<_>>();
    let choice_kind = contract.enum_value("kind", AdapterScalarSource::ToolChoiceKind, choices);
    let choice_name = contract.value(
        "name",
        AdapterScalarSource::ToolChoiceName,
        AdapterTransform::Identity,
    );
    choice_cases.push(contract.object(None, vec![choice_kind, choice_name]));
    let tool_choice = contract.builder.switch(
        Some(exhaustive_key("toolChoice")),
        AdapterPresence::OmitForUnset,
        Some(AdapterPresenceSource::ToolChoice),
        AdapterVariantSource::ToolChoice,
        choice_cases,
    );

    let root = contract.object(
        None,
        vec![
            cache_node,
            max_output,
            message_array,
            model,
            reasoning,
            system,
            tool_choice,
            tools,
        ],
    );
    AdapterContractV1 {
        version: 1,
        wire_id: AdapterWireId::AnthropicMessages,
        model_source: AdapterModelSource::CurrentModel,
        tree: ContractTree {
            root,
            nodes: contract.builder.nodes,
            tables: contract.tables,
        },
        ordinary_header_rules: vec![],
        decoder_kind: decoder_for(AdapterWireId::AnthropicMessages),
    }
}

fn exhaustive_exhaustive_expected(with_proof: bool) -> AdapterJson {
    let mut reasoning = vec![("kind", exhaustive_string("reasoning"))];
    if with_proof {
        reasoning.push(("proof", exhaustive_string("/w==")));
    }
    reasoning.extend([
        ("reasoningKind", exhaustive_string("thinking")),
        ("text", exhaustive_string("thought")),
    ]);
    exhaustive_object(vec![
        ("cache", exhaustive_string("session")),
        ("maxOutput", exhaustive_number(128)),
        (
            "messages",
            exhaustive_array(vec![
                exhaustive_object(vec![
                    (
                        "blocks",
                        exhaustive_array(vec![
                            exhaustive_object(vec![("kind", exhaustive_string("text")), ("text", exhaustive_string("hello"))]),
                            exhaustive_object(vec![
                                ("data", exhaustive_string("data:image/png;base64,AQI=")),
                                ("frames", exhaustive_number(1)),
                                ("height", exhaustive_number(4)),
                                ("kind", exhaustive_string("image")),
                                ("width", exhaustive_number(3)),
                            ]),
                        ]),
                    ),
                    ("role", exhaustive_string("user")),
                ]),
                exhaustive_object(vec![
                    (
                        "blocks",
                        exhaustive_array(vec![
                            exhaustive_object(vec![("kind", exhaustive_string("text")), ("text", exhaustive_string("answer"))]),
                            exhaustive_object(reasoning),
                            exhaustive_expected_call("call-1"),
                            exhaustive_expected_call("call-2"),
                        ]),
                    ),
                    ("role", exhaustive_string("assistant")),
                ]),
                exhaustive_object(vec![
                    (
                        "blocks",
                        exhaustive_array(vec![
                            exhaustive_object(vec![
                                ("kind", exhaustive_string("text")),
                                ("text", exhaustive_string("first result")),
                            ]),
                            exhaustive_object(vec![
                                ("data", exhaustive_string("data:image/jpeg;base64,Aw==")),
                                ("kind", exhaustive_string("image")),
                            ]),
                        ]),
                    ),
                    ("callId", exhaustive_string("call-1")),
                    ("isError", AdapterJson::Boolean(false)),
                    ("role", exhaustive_string("tool")),
                ]),
                exhaustive_object(vec![
                    (
                        "blocks",
                        exhaustive_array(vec![exhaustive_object(vec![
                            ("kind", exhaustive_string("text")),
                            ("text", exhaustive_string("second result")),
                        ])]),
                    ),
                    ("callId", exhaustive_string("call-2")),
                    ("isError", AdapterJson::Boolean(true)),
                    ("role", exhaustive_string("tool")),
                ]),
            ]),
        ),
        (
            "model",
            exhaustive_object(vec![("kind", exhaustive_string("exact")), ("value", exhaustive_string("model"))]),
        ),
        (
            "reasoning",
            exhaustive_object(vec![
                ("budget", exhaustive_number(64)),
                ("effort", exhaustive_string("low")),
                ("mode", exhaustive_string("enabled")),
            ]),
        ),
        (
            "system",
            exhaustive_array(vec![exhaustive_string("system one"), exhaustive_string("system two")]),
        ),
        (
            "toolChoice",
            exhaustive_object(vec![("kind", exhaustive_string("specific")), ("name", exhaustive_string("tool"))]),
        ),
        (
            "tools",
            exhaustive_array(vec![exhaustive_object(vec![
                ("description", exhaustive_string("Use tool")),
                ("name", exhaustive_string("tool")),
                ("schema", exhaustive_object(vec![("type", exhaustive_string("object"))])),
            ])]),
        ),
    ])
}

fn exhaustive_expected_call(call_id: &str) -> AdapterJson {
    exhaustive_object(vec![
        (
            "arguments",
            exhaustive_object(vec![("count", exhaustive_number(2)), ("label", exhaustive_string("x"))]),
        ),
        ("callId", exhaustive_string(call_id)),
        ("kind", exhaustive_string("tool")),
        ("name", exhaustive_string("tool")),
    ])
}

fn exhaustive_tool_call(call_id: &str) -> AssistantBlock {
    AssistantBlock::ToolCall(ToolCallBlock {
        call_id: call_id.to_owned(),
        name: "tool".to_owned(),
        arguments: wire_document(&exhaustive_object(vec![("count", exhaustive_number(2)), ("label", exhaustive_string("x"))])),
    })
}

fn exhaustive_image(
    media_type: ImageMediaType,
    bytes: &[u8],
    width: u32,
    height: u32,
    frames: u32,
) -> ImageView {
    ImageView {
        stamp: "img1-0123456789abcdef0123456789abcdef".to_owned(),
        media_type,
        bytes: bytes.to_vec(),
        metadata: ImageMetadata {
            width,
            height,
            frames,
        },
    }
}

fn exhaustive_text(value: &str) -> TextBlock {
    TextBlock {
        text: value.to_owned(),
    }
}

fn exhaustive_key(value: &str) -> PathSegment {
    PathSegment::Key(value.to_owned())
}

fn exhaustive_string(value: &str) -> AdapterJson {
    AdapterJson::ordinary_string(value)
}

fn exhaustive_number(value: u64) -> AdapterJson {
    AdapterJson::Number(value.to_string())
}

fn exhaustive_array(items: Vec<AdapterJson>) -> AdapterJson {
    AdapterJson::Array(items)
}

fn exhaustive_object(fields: Vec<(&str, AdapterJson)>) -> AdapterJson {
    AdapterJson::Object(
        fields
            .into_iter()
            .map(|(key, value)| (key.to_owned(), value))
            .collect(),
    )
}

fn catalog_entry(model: &str) -> CatalogEntry {
    CatalogEntry {
        selection: ModelSelection::Exact(id(model)),
        current_model: id(model),
        display_name: Some("Model".to_owned()),
        input_modalities: vec![InputModality::Text, InputModality::Image],
        tool_capability: supported_tools(),
        reasoning_capability: supported_reasoning(),
        context_tokens: Some(4_096),
        max_output_tokens: Some(1_024),
        completion_operation: id("complete"),
    }
}

fn prepare_input() -> PrepareInput {
    PrepareInput {
        provider_id: id("provider"),
        route_id: id("route"),
        catalog_digest: DIGEST.to_owned(),
        selection: ModelSelection::Exact(id("model")),
        current_model: id("model"),
        operation_id: id("complete"),
        request_id: id("request-1"),
        turn_id: id("turn-1"),
        system: vec![],
        messages: vec![],
        tools: vec![],
        tool_choice: ToolChoice::Unset,
        reasoning: Reasoning::Unset,
        cache_retention: CacheRetention::Unset,
        max_output_tokens: None,
    }
}

fn wire_document(value: &AdapterJson) -> WireJsonDocument {
    let mut nodes = Vec::new();
    let root = test_json_append(value, &mut nodes);
    WireJsonDocument { root, nodes }
}

fn test_json_append(value: &AdapterJson, nodes: &mut Vec<WireJsonNode>) -> u32 {
    let node = match value {
        AdapterJson::Null => WireJsonNode::NullValue,
        AdapterJson::Boolean(value) => WireJsonNode::BooleanValue(*value),
        AdapterJson::Number(value) => WireJsonNode::NumberValue(value.clone()),
        AdapterJson::String { value, .. } => WireJsonNode::StringValue(value.clone()),
        AdapterJson::Array(items) => {
            let items = items.iter().map(|item| test_json_append(item, nodes)).collect();
            WireJsonNode::ArrayValue(WireJsonArray { items })
        }
        AdapterJson::Object(fields) => {
            let fields = fields
                .iter()
                .map(|(key, value)| WireJsonField {
                    key: key.clone(),
                    value: test_json_append(value, nodes),
                })
                .collect();
            WireJsonNode::ObjectValue(WireJsonObject { fields })
        }
    };
    let index = u32::try_from(nodes.len()).expect("test wire node count");
    nodes.push(node);
    index
}

fn supported_tools() -> ToolCapability {
    ToolCapability {
        tools: CapabilitySupport::Supported,
        auto_choice: CapabilitySupport::Supported,
        none_choice: CapabilitySupport::Supported,
        specific_choice: CapabilitySupport::Supported,
    }
}

fn supported_reasoning() -> ReasoningCapability {
    ReasoningCapability {
        reasoning: CapabilitySupport::Supported,
        effort: CapabilitySupport::Supported,
        budget: CapabilitySupport::Supported,
        proof: CapabilitySupport::Supported,
    }
}

#[test]
fn second_system_messages_occurrence_is_statically_rejected() {
    let mut builder = ContractBuilder::default();
    let first = system_messages(&mut builder, "a");
    let second = system_messages(&mut builder, "b");
    let contract = contract(builder, vec![first, second]);
    assert!(validate_contract(&contract).is_err());
}

#[test]
fn system_messages_rejects_every_separate_system_projection() {
    for extra in [
        ExtraSystemProjection::System,
        ExtraSystemProjection::Messages,
        ExtraSystemProjection::Joined,
    ] {
        for sequence_first in [true, false] {
            let mut builder = ContractBuilder::default();
            let sequence = system_messages(&mut builder, if sequence_first { "a" } else { "b" });
            let extra_node = extra.build(&mut builder, if sequence_first { "b" } else { "a" });
            let children = if sequence_first {
                vec![sequence, extra_node]
            } else {
                vec![extra_node, sequence]
            };
            let contract = contract(builder, children);
            assert!(
                validate_contract(&contract).is_err(),
                "{extra:?} sequence_first={sequence_first}"
            );
        }
    }
}

#[test]
fn duplicate_nested_presence_source_is_rejected_on_one_active_path() {
    let mut builder = ContractBuilder::default();
    let inner = builder.constant(
        Some(key("inner")),
        AdapterPresence::OmitIfNone,
        Some(AdapterPresenceSource::MaxOutput),
        TypedJsonConstant::Null,
    );
    let outer = builder.object(
        Some(key("outer")),
        AdapterPresence::OmitIfNone,
        Some(AdapterPresenceSource::MaxOutput),
        vec![inner],
    );
    assert!(validate_contract(&contract(builder, vec![outer])).is_err());
}

#[test]
fn reasoning_value_wrappers_require_the_enabled_reasoning_case() {
    for source in [
        AdapterPresenceSource::ReasoningEffort,
        AdapterPresenceSource::ReasoningBudget,
    ] {
        for ordinal in [0, 1] {
            assert!(
                validate_contract(&reasoning_wrapper_contract(source, ordinal)).is_err(),
                "{source:?} ordinal={ordinal}"
            );
        }
        assert!(
            validate_contract(&reasoning_wrapper_contract(source, 2)).is_ok(),
            "{source:?} enabled"
        );
    }

    let valid = exhaustive_fixture(true);
    assert!(validate_contract(&valid.contract).is_ok());
}

fn reasoning_wrapper_contract(
    source: AdapterPresenceSource,
    wrapper_ordinal: usize,
) -> AdapterContractV1 {
    let mut builder = ContractBuilder::default();
    let cases = (0..3)
        .map(|ordinal| {
            if ordinal == wrapper_ordinal {
                builder.constant(
                    None,
                    AdapterPresence::OmitIfNone,
                    Some(source),
                    TypedJsonConstant::Null,
                )
            } else {
                constant(&mut builder, None)
            }
        })
        .collect();
    let reasoning = builder.switch(
        Some(key("reasoning")),
        AdapterPresence::OmitForUnset,
        Some(AdapterPresenceSource::Reasoning),
        AdapterVariantSource::Reasoning,
        cases,
    );
    contract(builder, vec![reasoning])
}

#[derive(Debug, Clone, Copy)]
enum ExtraSystemProjection {
    System,
    Messages,
    Joined,
}

impl ExtraSystemProjection {
    fn build(self, builder: &mut ContractBuilder, name: &str) -> u32 {
        match self {
            Self::System => {
                let item = builder.value(
                    Some(PathSegment::ArrayItem),
                    AdapterPresence::Required,
                    None,
                    AdapterScalarSource::SystemItem,
                    AdapterTransform::Identity,
                );
                builder.array(Some(key(name)), AdapterCollection::System, item, 0, 1_024)
            }
            Self::Messages => {
                let cases = (0..3).map(|_| constant(builder, None)).collect::<Vec<_>>();
                let item = builder.switch(
                    Some(PathSegment::ArrayItem),
                    AdapterPresence::Required,
                    None,
                    AdapterVariantSource::Message,
                    cases,
                );
                builder.array(Some(key(name)), AdapterCollection::Messages, item, 0, 4_096)
            }
            Self::Joined => builder.value(
                Some(key(name)),
                AdapterPresence::Required,
                None,
                AdapterScalarSource::SystemJoined,
                AdapterTransform::JoinLf,
            ),
        }
    }
}

fn system_messages(builder: &mut ContractBuilder, name: &str) -> u32 {
    let system = builder.value(
        None,
        AdapterPresence::Required,
        None,
        AdapterScalarSource::SystemItem,
        AdapterTransform::Identity,
    );
    let message_cases = (0..3).map(|_| constant(builder, None)).collect::<Vec<_>>();
    let message = builder.switch(
        None,
        AdapterPresence::Required,
        None,
        AdapterVariantSource::Message,
        message_cases,
    );
    let item = builder.switch(
        Some(PathSegment::ArrayItem),
        AdapterPresence::Required,
        None,
        AdapterVariantSource::SystemMessageEntry,
        vec![system, message],
    );
    builder.array(
        Some(key(name)),
        AdapterCollection::SystemMessages,
        item,
        0,
        5_120,
    )
}

fn constant(builder: &mut ContractBuilder, segment: Option<PathSegment>) -> u32 {
    builder.constant(
        segment,
        AdapterPresence::Required,
        None,
        TypedJsonConstant::Null,
    )
}

fn contract(mut builder: ContractBuilder, children: Vec<u32>) -> AdapterContractV1 {
    let root = builder.object(None, AdapterPresence::Required, None, children);
    AdapterContractV1 {
        version: 1,
        wire_id: AdapterWireId::OpenAiCompletions,
        model_source: AdapterModelSource::CurrentModel,
        tree: ContractTree {
            root,
            nodes: builder.nodes,
            tables: vec![],
        },
        ordinary_header_rules: vec![],
        decoder_kind: decoder_for(AdapterWireId::OpenAiCompletions),
    }
}

fn key(value: &str) -> PathSegment {
    PathSegment::Key(value.to_owned())
}
