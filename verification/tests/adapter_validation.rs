//! End-to-end dummy adapter mutation tests.

use mcode_plugin_host::provider_api::{
    AssistantBlock, AssistantMessage, CacheRetention, CapabilitySupport, CatalogEntry,
    EnabledReasoning, IdText, ImageMediaType, ImageMetadata, ImageView, InputModality, Message,
    ModelSelection, OrdinaryHeader, PrepareInput, Reasoning, ReasoningBlock,
    ReasoningCapability, ReasoningEffort, ReasoningKind, ReasoningProofView, SpecificToolChoice,
    ToolCapability, ToolChoice, ToolDefinition, UserBlock, UserMessage, WireJsonArray,
    WireJsonDocument, WireJsonField, WireJsonNode, WireJsonObject,
};
use mcode_plugin_host::provider_validation::adapter::validate_adapter;
use mcode_plugin_host::provider_validation::adapter::debts::DebtSet;
use mcode_plugin_host::provider_validation::adapter::evaluate::{Evaluator, Scope};
use mcode_plugin_host::provider_validation::adapter::structure::validate_contract;
use mcode_plugin_host::provider_validation::adapter::types::{
    AdapterCollection, AdapterContractV1, AdapterDecoderKind, AdapterEnumSource,
    AdapterModelSource, AdapterPresence, AdapterPresenceSource, AdapterScalarSource,
    AdapterTransform, AdapterValidationError, AdapterVariantSource, AdapterWireId,
    ContractArray, ContractCase, ContractConstant, ContractNode, ContractNodeBody,
    ContractObject, ContractSwitch, ContractTree, ContractValue, EnumTokenEntry, EnumTokenTable,
    FixedHeaderRule, OneOfHeaderRule, OrdinaryHeaderRule, PathSegment, TypedJsonConstant,
    ValidatedCatalogEntryView,
};
use mcode_plugin_host::provider_validation::prepare::ValidatedPrepare;

const OTHER_DIGEST: &str =
    "sha256:1123456789abcdef0123456789abcdef0123456789abcdef0123456789abcdef";

const DIGEST: &str =
    "sha256:0123456789abcdef0123456789abcdef0123456789abcdef0123456789abcdef";

struct DummyFixture {
    contract: AdapterContractV1,
    entry: CatalogEntry,
    original: PrepareInput,
    body: WireJsonDocument,
    headers: Vec<OrdinaryHeader>,
}

#[derive(Default)]
struct ContractBuilder {
    nodes: Vec<ContractNode>,
}

impl DummyFixture {
    fn selected(&self) -> ValidatedCatalogEntryView<'_> {
        ValidatedCatalogEntryView {
            provider_id: Box::leak(Box::new(id("provider"))),
            route_id: Box::leak(Box::new(id("route"))),
            catalog_digest: DIGEST,
            selection: &self.entry.selection,
            current_model: &self.entry.current_model,
            input_modalities: &self.entry.input_modalities,
            tool_capability: &self.entry.tool_capability,
            reasoning_capability: &self.entry.reasoning_capability,
            context_tokens: self.entry.context_tokens,
            max_output_tokens: self.entry.max_output_tokens,
            completion_operation: &self.entry.completion_operation,
        }
    }
}

impl ContractBuilder {
    fn push(
        &mut self,
        segment: Option<PathSegment>,
        presence: AdapterPresence,
        presence_source: Option<AdapterPresenceSource>,
        body: ContractNodeBody,
    ) -> u32 {
        let index = u32::try_from(self.nodes.len()).expect("dummy contract node count");
        self.nodes.push(ContractNode {
            parent: None,
            segment,
            presence,
            presence_source,
            body,
        });
        index
    }

    fn attach(&mut self, parent: u32, children: &[u32]) {
        for child in children {
            self.nodes[*child as usize].parent = Some(parent);
        }
    }

    fn object(
        &mut self,
        segment: Option<PathSegment>,
        presence: AdapterPresence,
        presence_source: Option<AdapterPresenceSource>,
        children: Vec<u32>,
    ) -> u32 {
        let node = self.push(
            segment,
            presence,
            presence_source,
            ContractNodeBody::Object(ContractObject {
                children: children.clone(),
            }),
        );
        self.attach(node, &children);
        node
    }

    fn array(
        &mut self,
        segment: Option<PathSegment>,
        collection: AdapterCollection,
        item: u32,
        min: u32,
        max: u32,
    ) -> u32 {
        let node = self.push(
            segment,
            AdapterPresence::Required,
            None,
            ContractNodeBody::Array(ContractArray {
                collection,
                item,
                min,
                max,
            }),
        );
        self.attach(node, &[item]);
        node
    }

    fn switch(
        &mut self,
        segment: Option<PathSegment>,
        presence: AdapterPresence,
        presence_source: Option<AdapterPresenceSource>,
        source: AdapterVariantSource,
        cases: Vec<u32>,
    ) -> u32 {
        let node = self.push(
            segment,
            presence,
            presence_source,
            ContractNodeBody::Switch(ContractSwitch {
                source,
                cases: cases
                    .iter()
                    .enumerate()
                    .map(|(ordinal, node)| ContractCase {
                        variant_ordinal: ordinal as u8,
                        node: *node,
                    })
                    .collect(),
            }),
        );
        self.attach(node, &cases);
        node
    }

    fn value(
        &mut self,
        segment: Option<PathSegment>,
        presence: AdapterPresence,
        presence_source: Option<AdapterPresenceSource>,
        source: AdapterScalarSource,
        transform: AdapterTransform,
    ) -> u32 {
        self.push(
            segment,
            presence,
            presence_source,
            ContractNodeBody::Value(ContractValue { source, transform }),
        )
    }

    fn constant(
        &mut self,
        segment: Option<PathSegment>,
        presence: AdapterPresence,
        presence_source: Option<AdapterPresenceSource>,
        value: TypedJsonConstant,
    ) -> u32 {
        self.push(
            segment,
            presence,
            presence_source,
            ContractNodeBody::Constant(ContractConstant { value }),
        )
    }
}

fn id(text: &str) -> IdText {
    IdText {
        text: text.to_owned(),
        canonical: true,
    }
}

fn empty_object() -> WireJsonDocument {
    WireJsonDocument {
        root: 0,
        nodes: vec![WireJsonNode::ObjectValue(WireJsonObject { fields: vec![] })],
    }
}

fn minimal_fixture() -> DummyFixture {
    let mut builder = ContractBuilder::default();
    let selection_table = EnumTokenTable {
        source: AdapterEnumSource::SelectionKind,
        entries: vec![
            EnumTokenEntry {
                variant_ordinal: 0,
                token: "exact".to_owned(),
            },
            EnumTokenEntry {
                variant_ordinal: 1,
                token: "alias".to_owned(),
            },
        ],
    };
    let model_cases = [0, 1].map(|_| {
        let kind = builder.value(
            Some(PathSegment::Key("kind".to_owned())),
            AdapterPresence::Required,
            None,
            AdapterScalarSource::SelectionKind,
            AdapterTransform::EnumToken(0),
        );
        let value = builder.value(
            Some(PathSegment::Key("value".to_owned())),
            AdapterPresence::Required,
            None,
            AdapterScalarSource::SelectedModel,
            AdapterTransform::Identity,
        );
        builder.object(None, AdapterPresence::Required, None, vec![kind, value])
    });
    let model = builder.switch(
        Some(PathSegment::Key("model".to_owned())),
        AdapterPresence::Required,
        None,
        AdapterVariantSource::ModelSelection,
        model_cases.to_vec(),
    );

    let system_item = builder.value(
        Some(PathSegment::ArrayItem),
        AdapterPresence::Required,
        None,
        AdapterScalarSource::SystemItem,
        AdapterTransform::Identity,
    );
    let system = builder.array(
        Some(PathSegment::Key("system".to_owned())),
        AdapterCollection::System,
        system_item,
        0,
        1_024,
    );
    let message_cases = (0..3)
        .map(|_| {
            builder.constant(
                None,
                AdapterPresence::Required,
                None,
                TypedJsonConstant::Null,
            )
        })
        .collect();
    let message_item = builder.switch(
        Some(PathSegment::ArrayItem),
        AdapterPresence::Required,
        None,
        AdapterVariantSource::Message,
        message_cases,
    );
    let messages = builder.array(
        Some(PathSegment::Key("messages".to_owned())),
        AdapterCollection::Messages,
        message_item,
        0,
        4_096,
    );
    let tool_name = builder.value(
        Some(PathSegment::Key("name".to_owned())),
        AdapterPresence::Required,
        None,
        AdapterScalarSource::ToolName,
        AdapterTransform::Identity,
    );
    let tool_description = builder.value(
        Some(PathSegment::Key("description".to_owned())),
        AdapterPresence::Required,
        None,
        AdapterScalarSource::ToolDescription,
        AdapterTransform::Identity,
    );
    let tool_schema = builder.value(
        Some(PathSegment::Key("schema".to_owned())),
        AdapterPresence::Required,
        None,
        AdapterScalarSource::ToolSchema,
        AdapterTransform::JsonSubtree,
    );
    let tool_item = builder.object(
        Some(PathSegment::ArrayItem),
        AdapterPresence::Required,
        None,
        vec![tool_description, tool_name, tool_schema],
    );
    let tools = builder.array(
        Some(PathSegment::Key("tools".to_owned())),
        AdapterCollection::Tools,
        tool_item,
        0,
        1_024,
    );
    let cache = builder.constant(
        Some(PathSegment::Key("cache".to_owned())),
        AdapterPresence::OmitForUnset,
        Some(AdapterPresenceSource::CacheRetention),
        TypedJsonConstant::Null,
    );
    let max_output = builder.constant(
        Some(PathSegment::Key("maxOutput".to_owned())),
        AdapterPresence::OmitIfNone,
        Some(AdapterPresenceSource::MaxOutput),
        TypedJsonConstant::Null,
    );
    let reasoning = builder.constant(
        Some(PathSegment::Key("reasoning".to_owned())),
        AdapterPresence::OmitForUnset,
        Some(AdapterPresenceSource::Reasoning),
        TypedJsonConstant::Null,
    );
    let tool_choice = builder.constant(
        Some(PathSegment::Key("toolChoice".to_owned())),
        AdapterPresence::OmitForUnset,
        Some(AdapterPresenceSource::ToolChoice),
        TypedJsonConstant::Null,
    );
    let root = builder.object(
        None,
        AdapterPresence::Required,
        None,
        vec![
            cache,
            max_output,
            messages,
            model,
            reasoning,
            system,
            tool_choice,
            tools,
        ],
    );
    let contract = AdapterContractV1 {
        version: 1,
        wire_id: AdapterWireId::AnthropicMessages,
        model_source: AdapterModelSource::CurrentModel,
        tree: ContractTree {
            root,
            nodes: builder.nodes,
            tables: vec![selection_table],
        },
        ordinary_header_rules: vec![
            OrdinaryHeaderRule::Fixed(FixedHeaderRule {
                name: "accept".to_owned(),
                value: "application/json".to_owned(),
            }),
            OrdinaryHeaderRule::OneOf(OneOfHeaderRule {
                name: "x-mode".to_owned(),
                values: vec!["fast".to_owned(), "safe".to_owned()],
                required: true,
            }),
        ],
        decoder_kind: AdapterDecoderKind::AnthropicMessages,
    };

    DummyFixture {
        contract,
        entry: catalog_entry("model"),
        original: prepare_input(),
        body: fixtures_minimal_body(),
        headers: vec![OrdinaryHeader {
            name: "x-mode".to_owned(),
            value: "safe".to_owned(),
        }],
    }
}

fn fixtures_minimal_body() -> WireJsonDocument {
    WireJsonDocument {
        root: 6,
        nodes: vec![
            WireJsonNode::StringValue("exact".to_owned()),
            WireJsonNode::StringValue("model".to_owned()),
            WireJsonNode::ObjectValue(WireJsonObject {
                fields: vec![
                    WireJsonField {
                        key: "kind".to_owned(),
                        value: 0,
                    },
                    WireJsonField {
                        key: "value".to_owned(),
                        value: 1,
                    },
                ],
            }),
            WireJsonNode::ArrayValue(WireJsonArray { items: vec![] }),
            WireJsonNode::ArrayValue(WireJsonArray { items: vec![] }),
            WireJsonNode::ArrayValue(WireJsonArray { items: vec![] }),
            WireJsonNode::ObjectValue(WireJsonObject {
                fields: vec![
                    WireJsonField {
                        key: "messages".to_owned(),
                        value: 3,
                    },
                    WireJsonField {
                        key: "model".to_owned(),
                        value: 2,
                    },
                    WireJsonField {
                        key: "system".to_owned(),
                        value: 4,
                    },
                    WireJsonField {
                        key: "tools".to_owned(),
                        value: 5,
                    },
                ],
            }),
        ],
    }
}

fn catalog_entry(model: &str) -> CatalogEntry {
    CatalogEntry {
        selection: ModelSelection::Exact(id(model)),
        current_model: id(model),
        display_name: Some("Model".to_owned()),
        input_modalities: vec![InputModality::Text, InputModality::Image],
        tool_capability: supported_tools(),
        reasoning_capability: supported_reasoning(),
        context_tokens: Some(4_096),
        max_output_tokens: Some(1_024),
        completion_operation: id("complete"),
    }
}

fn prepare_input() -> PrepareInput {
    PrepareInput {
        provider_id: id("provider"),
        route_id: id("route"),
        catalog_digest: DIGEST.to_owned(),
        selection: ModelSelection::Exact(id("model")),
        current_model: id("model"),
        operation_id: id("complete"),
        request_id: id("request-1"),
        turn_id: id("turn-1"),
        system: vec![],
        messages: vec![],
        tools: vec![],
        tool_choice: ToolChoice::Unset,
        reasoning: Reasoning::Unset,
        cache_retention: CacheRetention::Unset,
        max_output_tokens: None,
    }
}

fn supported_tools() -> ToolCapability {
    ToolCapability {
        tools: CapabilitySupport::Supported,
        auto_choice: CapabilitySupport::Supported,
        none_choice: CapabilitySupport::Supported,
        specific_choice: CapabilitySupport::Supported,
    }
}

fn supported_reasoning() -> ReasoningCapability {
    ReasoningCapability {
        reasoning: CapabilitySupport::Supported,
        effort: CapabilitySupport::Supported,
        budget: CapabilitySupport::Supported,
        proof: CapabilitySupport::Supported,
    }
}

#[test]
fn trusted_dummy_contract_binds_body_headers_and_three_digests() {
    let fixture = minimal_fixture();
    let validated = validate_adapter(
        &fixture.contract,
        fixture.selected(),
        &fixture.original,
        &fixture.body,
        &fixture.headers,
    )
    .expect("trusted dummy adapter");

    assert_eq!(validated.wire_id, AdapterWireId::AnthropicMessages);
    assert_eq!(
        validated.decoder_kind,
        AdapterDecoderKind::AnthropicMessages
    );
    assert_eq!(
        validated.body_digest,
        "sha256:5babf31530429a7d49925e00556e41cf49417de1a14c0c5245f57b8339d0da92"
    );
    assert_eq!(
        validated.ordinary_header_digest,
        "sha256:fc89e11ee25a851ca4a10348424e61d4cb7fd153cb460bae6fb100a337bb5b96"
    );
    assert_eq!(
        validated.contract_digest,
        "sha256:93714081ba242650fb87d629a603faff78d9968abab0d0c9c069f16d577a122c"
    );
}

#[test]
fn selected_and_original_identity_fields_are_bound_before_expansion() {
    let fixture = minimal_fixture();
    let mutations: [fn(&mut PrepareInput); 6] = [
        |input| input.provider_id = id("other"),
        |input| input.route_id = id("other"),
        |input| input.catalog_digest = OTHER_DIGEST.to_owned(),
        |input| input.selection = ModelSelection::Alias(id("model")),
        |input| input.current_model = id("other"),
        |input| input.operation_id = id("other"),
    ];
    for mutate in mutations {
        let mut original = fixture.original.clone();
        mutate(&mut original);
        assert_eq!(
            validate_adapter(
                &fixture.contract,
                fixture.selected(),
                &original,
                &fixture.body,
                &fixture.headers,
            ),
            Err(AdapterValidationError::SourceMismatch)
        );
    }
}

#[test]
fn capability_fields_are_independent_and_fail_closed() {
    let mut fixture = minimal_fixture();
    fixture.original.system.push("system".to_owned());
    fixture
        .body
        .nodes
        .insert(4, WireJsonNode::StringValue("system".to_owned()));
    let WireJsonNode::ArrayValue(system) = &mut fixture.body.nodes[5] else {
        panic!("system array")
    };
    system.items.push(4);
    fixture.body.root += 1;
    let WireJsonNode::ObjectValue(root) = fixture.body.nodes.last_mut().expect("root") else {
        panic!("root object")
    };
    for field in &mut root.fields {
        if field.value >= 4 {
            field.value += 1;
        }
    }
    assert!(
        validate_adapter(
            &fixture.contract,
            fixture.selected(),
            &fixture.original,
            &fixture.body,
            &fixture.headers,
        )
        .is_ok()
    );

    fixture.entry.input_modalities = vec![InputModality::Unknown];
    assert!(fixture.entry.input_modalities.len() == 1);
    fixture.entry.tool_capability.tools = CapabilitySupport::Unknown;
    fixture.entry.reasoning_capability.reasoning = CapabilitySupport::Unsupported;
    assert!(
        validate_adapter(
            &fixture.contract,
            fixture.selected(),
            &fixture.original,
            &fixture.body,
            &fixture.headers,
        )
        .is_ok()
    );
}

#[test]
fn every_selected_capability_and_limit_is_checked_independently() {
    let mut fixture = minimal_fixture();
    let tool = ToolDefinition {
        name: "tool".to_owned(),
        description: "tool".to_owned(),
        input_schema: empty_object(),
    };

    fixture.original.tools = vec![tool.clone()];
    fixture.entry.tool_capability.tools = CapabilitySupport::Unknown;
    assert_capability_mismatch(&fixture);

    fixture = minimal_fixture();
    fixture.original.tools = vec![tool.clone()];
    fixture.original.tool_choice = ToolChoice::Auto;
    fixture.entry.tool_capability.auto_choice = CapabilitySupport::Unsupported;
    assert_capability_mismatch(&fixture);

    fixture = minimal_fixture();
    fixture.original.tool_choice = ToolChoice::Forbidden;
    fixture.entry.tool_capability.none_choice = CapabilitySupport::Unknown;
    assert_capability_mismatch(&fixture);

    fixture = minimal_fixture();
    fixture.original.tools = vec![tool];
    fixture.original.tool_choice = ToolChoice::Specific(SpecificToolChoice {
        name: "tool".to_owned(),
    });
    fixture.entry.tool_capability.specific_choice = CapabilitySupport::Unsupported;
    assert_capability_mismatch(&fixture);

    fixture = minimal_fixture();
    fixture.original.reasoning = Reasoning::Disabled;
    fixture.entry.reasoning_capability.reasoning = CapabilitySupport::Unknown;
    assert_capability_mismatch(&fixture);

    fixture = minimal_fixture();
    fixture.original.reasoning = Reasoning::Enabled(EnabledReasoning {
        effort: Some(ReasoningEffort::Low),
        budget_tokens: None,
    });
    fixture.entry.reasoning_capability.effort = CapabilitySupport::Unsupported;
    assert_capability_mismatch(&fixture);

    fixture = minimal_fixture();
    fixture.original.reasoning = Reasoning::Enabled(EnabledReasoning {
        effort: None,
        budget_tokens: Some(1),
    });
    fixture.entry.reasoning_capability.budget = CapabilitySupport::Unknown;
    assert_capability_mismatch(&fixture);

    fixture = minimal_fixture();
    fixture.original.messages = vec![Message::Assistant(AssistantMessage {
        blocks: vec![AssistantBlock::Reasoning(ReasoningBlock {
            kind: ReasoningKind::Thinking,
            text: "thinking".to_owned(),
            proof: Some(ReasoningProofView {
                stamp: "prf1-0123456789abcdef0123456789abcdef".to_owned(),
                source_request_id: id("request-0"),
                source_turn_id: id("turn-0"),
                source_content_index: 0,
                reasoning_kind: ReasoningKind::Thinking,
                proof: vec![1],
            }),
        })],
    })];
    fixture.entry.reasoning_capability.proof = CapabilitySupport::Unsupported;
    assert_capability_mismatch(&fixture);

    fixture = minimal_fixture();
    fixture.original.messages = vec![Message::User(UserMessage {
        blocks: vec![UserBlock::Image(ImageView {
            stamp: "img1-0123456789abcdef0123456789abcdef".to_owned(),
            media_type: ImageMediaType::Png,
            bytes: vec![1],
            metadata: ImageMetadata {
                width: 1,
                height: 1,
                frames: 1,
            },
        })],
    })];
    fixture.entry.input_modalities = vec![InputModality::Text];
    assert_capability_mismatch(&fixture);

    fixture = minimal_fixture();
    fixture.original.max_output_tokens = Some(2);
    fixture.entry.max_output_tokens = Some(1);
    assert_capability_mismatch(&fixture);

    fixture = minimal_fixture();
    fixture.entry.context_tokens = Some(0);
    assert_eq!(
        validate_adapter(
            &fixture.contract,
            fixture.selected(),
            &fixture.original,
            &fixture.body,
            &fixture.headers,
        ),
        Err(AdapterValidationError::SourceMismatch)
    );
}

fn assert_capability_mismatch(fixture: &DummyFixture) {
    assert_eq!(
        validate_adapter(
            &fixture.contract,
            fixture.selected(),
            &fixture.original,
            &fixture.body,
            &fixture.headers,
        ),
        Err(AdapterValidationError::CapabilityMismatch)
    );
}

#[test]
fn body_and_header_mutations_are_rejected_exactly() {
    let fixture = minimal_fixture();
    let mut body = fixture.body.clone();
    let WireJsonNode::StringValue(model) = &mut body.nodes[1] else {
        panic!("model string")
    };
    *model = "other".to_owned();
    assert_eq!(
        validate_adapter(
            &fixture.contract,
            fixture.selected(),
            &fixture.original,
            &body,
            &fixture.headers,
        ),
        Err(AdapterValidationError::BodyMismatch)
    );

    let wrong_headers = vec![OrdinaryHeader {
        name: "x-mode".to_owned(),
        value: "other".to_owned(),
    }];
    assert_eq!(
        validate_adapter(
            &fixture.contract,
            fixture.selected(),
            &fixture.original,
            &fixture.body,
            &wrong_headers,
        ),
        Err(AdapterValidationError::HeaderMismatch)
    );
    assert_eq!(
        validate_adapter(
            &fixture.contract,
            fixture.selected(),
            &fixture.original,
            &fixture.body,
            &[],
        ),
        Err(AdapterValidationError::HeaderMismatch)
    );
}

#[test]
fn contract_version_decoder_tree_table_and_header_order_mutations_fail() {
    let fixture = minimal_fixture();

    let mut version = fixture.contract.clone();
    version.version = 2;
    assert_eq!(
        validate_contract(&version),
        Err(AdapterValidationError::InvalidContract)
    );

    let mut decoder = fixture.contract.clone();
    decoder.decoder_kind = AdapterDecoderKind::PiMessages;
    assert_eq!(
        validate_contract(&decoder),
        Err(AdapterValidationError::InvalidContract)
    );

    let mut root = fixture.contract.clone();
    root.tree.root -= 1;
    assert_eq!(
        validate_contract(&root),
        Err(AdapterValidationError::InvalidContract)
    );

    let mut table = fixture.contract.clone();
    table.tree.tables[0].entries.swap(0, 1);
    assert_eq!(
        validate_contract(&table),
        Err(AdapterValidationError::InvalidContract)
    );

    let mut headers = fixture.contract.clone();
    headers.ordinary_header_rules.swap(0, 1);
    assert_eq!(
        validate_contract(&headers),
        Err(AdapterValidationError::InvalidContract)
    );
}

#[test]
fn fixed_headers_require_guest_absence_and_optional_one_of_is_closed() {
    let mut fixture = minimal_fixture();
    fixture.headers = vec![OrdinaryHeader {
        name: "accept".to_owned(),
        value: "application/json".to_owned(),
    }];
    assert_eq!(
        validate_adapter(
            &fixture.contract,
            fixture.selected(),
            &fixture.original,
            &fixture.body,
            &fixture.headers,
        ),
        Err(AdapterValidationError::HeaderMismatch)
    );

    let OrdinaryHeaderRule::OneOf(rule) = &mut fixture.contract.ordinary_header_rules[1] else {
        panic!("one-of rule")
    };
    rule.required = false;
    fixture.headers.clear();
    assert!(
        validate_adapter(
            &fixture.contract,
            fixture.selected(),
            &fixture.original,
            &fixture.body,
            &fixture.headers,
        )
        .is_ok()
    );
}

#[test]
fn model_source_changes_only_the_selected_model_projection() {
    let mut fixture = minimal_fixture();
    fixture.contract.model_source = AdapterModelSource::RequestedSelection;
    assert!(
        validate_adapter(
            &fixture.contract,
            fixture.selected(),
            &fixture.original,
            &fixture.body,
            &fixture.headers,
        )
        .is_ok()
    );
}

#[test]
fn arrangement_of_nodes_does_not_change_the_accepted_body() {
    let fixture = minimal_fixture();
    let check = |body: &WireJsonDocument| {
        validate_adapter(
            &fixture.contract,
            fixture.selected(),
            &fixture.original,
            body,
            &fixture.headers,
        )
    };
    let accepted = check(&fixture.body).expect("accepted body");

    // The two texts of the model swap places, and so do their references.
    let mut arranged = fixture.body.clone();
    arranged.nodes.swap(0, 1);
    if let WireJsonNode::ObjectValue(model) = &mut arranged.nodes[2] {
        for field in &mut model.fields {
            field.value = 1 - field.value;
        }
    }
    let again = check(&arranged).expect("same body in another arrangement");
    assert_eq!(again.body_digest, accepted.body_digest);
    assert_eq!(again.contract_digest, accepted.contract_digest);
    assert_eq!(again.ordinary_header_digest, accepted.ordinary_header_digest);

    // With the references left alone the values are exchanged.
    let mut exchanged = fixture.body.clone();
    exchanged.nodes.swap(0, 1);
    assert_eq!(check(&exchanged), Err(AdapterValidationError::BodyMismatch));
}

#[test]
fn a_tool_that_the_request_lacks_is_a_source_mismatch() {
    let fixture = minimal_fixture();
    let mut evaluator = Evaluator {
        contract: &fixture.contract,
        original: &fixture.original,
        prepared: ValidatedPrepare {
            logical_charge: 0,
            matched_tool_results: Vec::new(),
        },
        consumed: DebtSet::new(),
        optional_consumed: DebtSet::new(),
    };
    let beyond = fixture.original.tools.len();
    assert!(matches!(
        evaluator.tool_scalar(
            AdapterScalarSource::ToolName,
            &AdapterTransform::Identity,
            Scope::Tool(beyond),
        ),
        Err(AdapterValidationError::SourceMismatch)
    ));
    assert!(matches!(
        evaluator.tool_scalar(
            AdapterScalarSource::ToolName,
            &AdapterTransform::Identity,
            Scope::Root,
        ),
        Err(AdapterValidationError::InvalidContract)
    ));
}
