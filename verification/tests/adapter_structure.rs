//! Structural contract invariant mutation tests.

use mcode_plugin_host::provider_api::{
    CacheRetention, CapabilitySupport, CatalogEntry, IdText, InputModality, ModelSelection,
    OrdinaryHeader, PrepareInput, Reasoning, ReasoningCapability, ToolCapability, ToolChoice,
    WireJsonArray, WireJsonDocument, WireJsonField, WireJsonNode, WireJsonObject,
};
use mcode_plugin_host::provider_validation::adapter::structure::validate_contract;
use mcode_plugin_host::provider_validation::adapter::types::{
    AdapterCollection, AdapterContractV1, AdapterDecoderKind, AdapterEnumSource,
    AdapterModelSource, AdapterPresence, AdapterPresenceSource, AdapterScalarSource,
    AdapterTransform, AdapterValidationError, AdapterVariantSource, AdapterWireId,
    ContractArray, ContractCase, ContractConstant, ContractNode, ContractNodeBody,
    ContractObject, ContractSwitch, ContractTree, ContractValue, EnumTokenEntry, EnumTokenTable,
    FixedHeaderRule, OneOfHeaderRule, OrdinaryHeaderRule, PathSegment, TypedJsonConstant,
    ValidatedCatalogEntryView,
};

const DIGEST: &str =
    "sha256:0123456789abcdef0123456789abcdef0123456789abcdef0123456789abcdef";

#[derive(Default)]
struct ContractBuilder {
    nodes: Vec<ContractNode>,
}

struct DummyFixture {
    contract: AdapterContractV1,
    entry: CatalogEntry,
    original: PrepareInput,
    body: WireJsonDocument,
    headers: Vec<OrdinaryHeader>,
}

impl ContractBuilder {
    fn push(
        &mut self,
        segment: Option<PathSegment>,
        presence: AdapterPresence,
        presence_source: Option<AdapterPresenceSource>,
        body: ContractNodeBody,
    ) -> u32 {
        let index = u32::try_from(self.nodes.len()).expect("dummy contract node count");
        self.nodes.push(ContractNode {
            parent: None,
            segment,
            presence,
            presence_source,
            body,
        });
        index
    }

    fn attach(&mut self, parent: u32, children: &[u32]) {
        for child in children {
            self.nodes[*child as usize].parent = Some(parent);
        }
    }

    fn object(
        &mut self,
        segment: Option<PathSegment>,
        presence: AdapterPresence,
        presence_source: Option<AdapterPresenceSource>,
        children: Vec<u32>,
    ) -> u32 {
        let node = self.push(
            segment,
            presence,
            presence_source,
            ContractNodeBody::Object(ContractObject {
                children: children.clone(),
            }),
        );
        self.attach(node, &children);
        node
    }

    fn array(
        &mut self,
        segment: Option<PathSegment>,
        collection: AdapterCollection,
        item: u32,
        min: u32,
        max: u32,
    ) -> u32 {
        let node = self.push(
            segment,
            AdapterPresence::Required,
            None,
            ContractNodeBody::Array(ContractArray {
                collection,
                item,
                min,
                max,
            }),
        );
        self.attach(node, &[item]);
        node
    }

    fn switch(
        &mut self,
        segment: Option<PathSegment>,
        presence: AdapterPresence,
        presence_source: Option<AdapterPresenceSource>,
        source: AdapterVariantSource,
        cases: Vec<u32>,
    ) -> u32 {
        let node = self.push(
            segment,
            presence,
            presence_source,
            ContractNodeBody::Switch(ContractSwitch {
                source,
                cases: cases
                    .iter()
                    .enumerate()
                    .map(|(ordinal, node)| ContractCase {
                        variant_ordinal: ordinal as u8,
                        node: *node,
                    })
                    .collect(),
            }),
        );
        self.attach(node, &cases);
        node
    }

    fn value(
        &mut self,
        segment: Option<PathSegment>,
        presence: AdapterPresence,
        presence_source: Option<AdapterPresenceSource>,
        source: AdapterScalarSource,
        transform: AdapterTransform,
    ) -> u32 {
        self.push(
            segment,
            presence,
            presence_source,
            ContractNodeBody::Value(ContractValue { source, transform }),
        )
    }

    fn constant(
        &mut self,
        segment: Option<PathSegment>,
        presence: AdapterPresence,
        presence_source: Option<AdapterPresenceSource>,
        value: TypedJsonConstant,
    ) -> u32 {
        self.push(
            segment,
            presence,
            presence_source,
            ContractNodeBody::Constant(ContractConstant { value }),
        )
    }
}

impl DummyFixture {
    fn selected(&self) -> ValidatedCatalogEntryView<'_> {
        ValidatedCatalogEntryView {
            provider_id: Box::leak(Box::new(id("provider"))),
            route_id: Box::leak(Box::new(id("route"))),
            catalog_digest: DIGEST,
            selection: &self.entry.selection,
            current_model: &self.entry.current_model,
            input_modalities: &self.entry.input_modalities,
            tool_capability: &self.entry.tool_capability,
            reasoning_capability: &self.entry.reasoning_capability,
            context_tokens: self.entry.context_tokens,
            max_output_tokens: self.entry.max_output_tokens,
            completion_operation: &self.entry.completion_operation,
        }
    }
}

fn id(text: &str) -> IdText {
    IdText {
        text: text.to_owned(),
        canonical: true,
    }
}

fn single_value_contract(
    wire_id: AdapterWireId,
    source: AdapterScalarSource,
    transform: AdapterTransform,
    table_source: Option<AdapterEnumSource>,
) -> AdapterContractV1 {
    let tables = table_source
        .map(|source| {
            vec![EnumTokenTable {
                source,
                entries: (0..source.variant_count())
                    .map(|variant_ordinal| EnumTokenEntry {
                        variant_ordinal,
                        token: format!("v{variant_ordinal}"),
                    })
                    .collect(),
            }]
        })
        .unwrap_or_default();
    AdapterContractV1 {
        version: 1,
        wire_id,
        model_source: AdapterModelSource::CurrentModel,
        tree: ContractTree {
            root: 1,
            nodes: vec![
                ContractNode {
                    parent: Some(1),
                    segment: Some(PathSegment::Key("value".to_owned())),
                    presence: AdapterPresence::Required,
                    presence_source: None,
                    body: ContractNodeBody::Value(ContractValue { source, transform }),
                },
                ContractNode {
                    parent: None,
                    segment: None,
                    presence: AdapterPresence::Required,
                    presence_source: None,
                    body: ContractNodeBody::Object(ContractObject { children: vec![0] }),
                },
            ],
            tables,
        },
        ordinary_header_rules: vec![],
        decoder_kind: decoder_for(wire_id),
    }
}

fn decoder_for(wire_id: AdapterWireId) -> AdapterDecoderKind {
    match wire_id {
        AdapterWireId::AnthropicMessages => AdapterDecoderKind::AnthropicMessages,
        AdapterWireId::OpenAiCompletions => AdapterDecoderKind::OpenAiCompletions,
        AdapterWireId::OpenAiResponses => AdapterDecoderKind::OpenAiResponses,
        AdapterWireId::OpenAiCodexResponses => AdapterDecoderKind::OpenAiCodexResponses,
        AdapterWireId::AzureOpenAiResponses => AdapterDecoderKind::AzureOpenAiResponses,
        AdapterWireId::GoogleGenerativeAi => AdapterDecoderKind::GoogleGenerativeAi,
        AdapterWireId::GoogleVertex => AdapterDecoderKind::GoogleVertex,
        AdapterWireId::MistralConversations => AdapterDecoderKind::MistralConversations,
        AdapterWireId::BedrockConverseStream => AdapterDecoderKind::BedrockConverseStream,
        AdapterWireId::PiMessages => AdapterDecoderKind::PiMessages,
    }
}

fn minimal_fixture() -> DummyFixture {
    let mut builder = ContractBuilder::default();
    let selection_table = EnumTokenTable {
        source: AdapterEnumSource::SelectionKind,
        entries: vec![
            EnumTokenEntry {
                variant_ordinal: 0,
                token: "exact".to_owned(),
            },
            EnumTokenEntry {
                variant_ordinal: 1,
                token: "alias".to_owned(),
            },
        ],
    };
    let model_cases = [0, 1].map(|_| {
        let kind = builder.value(
            Some(PathSegment::Key("kind".to_owned())),
            AdapterPresence::Required,
            None,
            AdapterScalarSource::SelectionKind,
            AdapterTransform::EnumToken(0),
        );
        let value = builder.value(
            Some(PathSegment::Key("value".to_owned())),
            AdapterPresence::Required,
            None,
            AdapterScalarSource::SelectedModel,
            AdapterTransform::Identity,
        );
        builder.object(None, AdapterPresence::Required, None, vec![kind, value])
    });
    let model = builder.switch(
        Some(PathSegment::Key("model".to_owned())),
        AdapterPresence::Required,
        None,
        AdapterVariantSource::ModelSelection,
        model_cases.to_vec(),
    );

    let system_item = builder.value(
        Some(PathSegment::ArrayItem),
        AdapterPresence::Required,
        None,
        AdapterScalarSource::SystemItem,
        AdapterTransform::Identity,
    );
    let system = builder.array(
        Some(PathSegment::Key("system".to_owned())),
        AdapterCollection::System,
        system_item,
        0,
        1_024,
    );
    let message_cases = (0..3)
        .map(|_| {
            builder.constant(
                None,
                AdapterPresence::Required,
                None,
                TypedJsonConstant::Null,
            )
        })
        .collect();
    let message_item = builder.switch(
        Some(PathSegment::ArrayItem),
        AdapterPresence::Required,
        None,
        AdapterVariantSource::Message,
        message_cases,
    );
    let messages = builder.array(
        Some(PathSegment::Key("messages".to_owned())),
        AdapterCollection::Messages,
        message_item,
        0,
        4_096,
    );
    let tool_name = builder.value(
        Some(PathSegment::Key("name".to_owned())),
        AdapterPresence::Required,
        None,
        AdapterScalarSource::ToolName,
        AdapterTransform::Identity,
    );
    let tool_description = builder.value(
        Some(PathSegment::Key("description".to_owned())),
        AdapterPresence::Required,
        None,
        AdapterScalarSource::ToolDescription,
        AdapterTransform::Identity,
    );
    let tool_schema = builder.value(
        Some(PathSegment::Key("schema".to_owned())),
        AdapterPresence::Required,
        None,
        AdapterScalarSource::ToolSchema,
        AdapterTransform::JsonSubtree,
    );
    let tool_item = builder.object(
        Some(PathSegment::ArrayItem),
        AdapterPresence::Required,
        None,
        vec![tool_description, tool_name, tool_schema],
    );
    let tools = builder.array(
        Some(PathSegment::Key("tools".to_owned())),
        AdapterCollection::Tools,
        tool_item,
        0,
        1_024,
    );
    let cache = builder.constant(
        Some(PathSegment::Key("cache".to_owned())),
        AdapterPresence::OmitForUnset,
        Some(AdapterPresenceSource::CacheRetention),
        TypedJsonConstant::Null,
    );
    let max_output = builder.constant(
        Some(PathSegment::Key("maxOutput".to_owned())),
        AdapterPresence::OmitIfNone,
        Some(AdapterPresenceSource::MaxOutput),
        TypedJsonConstant::Null,
    );
    let reasoning = builder.constant(
        Some(PathSegment::Key("reasoning".to_owned())),
        AdapterPresence::OmitForUnset,
        Some(AdapterPresenceSource::Reasoning),
        TypedJsonConstant::Null,
    );
    let tool_choice = builder.constant(
        Some(PathSegment::Key("toolChoice".to_owned())),
        AdapterPresence::OmitForUnset,
        Some(AdapterPresenceSource::ToolChoice),
        TypedJsonConstant::Null,
    );
    let root = builder.object(
        None,
        AdapterPresence::Required,
        None,
        vec![
            cache,
            max_output,
            messages,
            model,
            reasoning,
            system,
            tool_choice,
            tools,
        ],
    );
    let contract = AdapterContractV1 {
        version: 1,
        wire_id: AdapterWireId::AnthropicMessages,
        model_source: AdapterModelSource::CurrentModel,
        tree: ContractTree {
            root,
            nodes: builder.nodes,
            tables: vec![selection_table],
        },
        ordinary_header_rules: vec![
            OrdinaryHeaderRule::Fixed(FixedHeaderRule {
                name: "accept".to_owned(),
                value: "application/json".to_owned(),
            }),
            OrdinaryHeaderRule::OneOf(OneOfHeaderRule {
                name: "x-mode".to_owned(),
                values: vec!["fast".to_owned(), "safe".to_owned()],
                required: true,
            }),
        ],
        decoder_kind: AdapterDecoderKind::AnthropicMessages,
    };

    DummyFixture {
        contract,
        entry: catalog_entry("model"),
        original: prepare_input(),
        body: fixtures_minimal_body(),
        headers: vec![OrdinaryHeader {
            name: "x-mode".to_owned(),
            value: "safe".to_owned(),
        }],
    }
}

fn fixtures_minimal_body() -> WireJsonDocument {
    WireJsonDocument {
        root: 6,
        nodes: vec![
            WireJsonNode::StringValue("exact".to_owned()),
            WireJsonNode::StringValue("model".to_owned()),
            WireJsonNode::ObjectValue(WireJsonObject {
                fields: vec![
                    WireJsonField {
                        key: "kind".to_owned(),
                        value: 0,
                    },
                    WireJsonField {
                        key: "value".to_owned(),
                        value: 1,
                    },
                ],
            }),
            WireJsonNode::ArrayValue(WireJsonArray { items: vec![] }),
            WireJsonNode::ArrayValue(WireJsonArray { items: vec![] }),
            WireJsonNode::ArrayValue(WireJsonArray { items: vec![] }),
            WireJsonNode::ObjectValue(WireJsonObject {
                fields: vec![
                    WireJsonField {
                        key: "messages".to_owned(),
                        value: 3,
                    },
                    WireJsonField {
                        key: "model".to_owned(),
                        value: 2,
                    },
                    WireJsonField {
                        key: "system".to_owned(),
                        value: 4,
                    },
                    WireJsonField {
                        key: "tools".to_owned(),
                        value: 5,
                    },
                ],
            }),
        ],
    }
}

fn catalog_entry(model: &str) -> CatalogEntry {
    CatalogEntry {
        selection: ModelSelection::Exact(id(model)),
        current_model: id(model),
        display_name: Some("Model".to_owned()),
        input_modalities: vec![InputModality::Text, InputModality::Image],
        tool_capability: supported_tools(),
        reasoning_capability: supported_reasoning(),
        context_tokens: Some(4_096),
        max_output_tokens: Some(1_024),
        completion_operation: id("complete"),
    }
}

fn prepare_input() -> PrepareInput {
    PrepareInput {
        provider_id: id("provider"),
        route_id: id("route"),
        catalog_digest: DIGEST.to_owned(),
        selection: ModelSelection::Exact(id("model")),
        current_model: id("model"),
        operation_id: id("complete"),
        request_id: id("request-1"),
        turn_id: id("turn-1"),
        system: vec![],
        messages: vec![],
        tools: vec![],
        tool_choice: ToolChoice::Unset,
        reasoning: Reasoning::Unset,
        cache_retention: CacheRetention::Unset,
        max_output_tokens: None,
    }
}

fn supported_tools() -> ToolCapability {
    ToolCapability {
        tools: CapabilitySupport::Supported,
        auto_choice: CapabilitySupport::Supported,
        none_choice: CapabilitySupport::Supported,
        specific_choice: CapabilitySupport::Supported,
    }
}

fn supported_reasoning() -> ReasoningCapability {
    ReasoningCapability {
        reasoning: CapabilitySupport::Supported,
        effort: CapabilitySupport::Supported,
        budget: CapabilitySupport::Supported,
        proof: CapabilitySupport::Supported,
    }
}

#[test]
fn node_parent_reference_segment_and_object_order_are_closed() {
    let fixture = minimal_fixture();

    let mut wrong_parent = fixture.contract.clone();
    wrong_parent.tree.nodes[0].parent = Some(wrong_parent.tree.root);
    assert!(validate_contract(&wrong_parent).is_err());

    let mut duplicate_reference = fixture.contract.clone();
    let ContractNodeBody::Object(root) = &mut duplicate_reference
        .tree
        .nodes
        .last_mut()
        .expect("root")
        .body
    else {
        panic!("root object")
    };
    root.children.push(root.children[0]);
    assert!(validate_contract(&duplicate_reference).is_err());

    let mut wrong_segment = fixture.contract.clone();
    wrong_segment.tree.nodes[0].segment = Some(PathSegment::ArrayItem);
    assert!(validate_contract(&wrong_segment).is_err());

    let mut reversed = fixture.contract.clone();
    let ContractNodeBody::Object(root) = &mut reversed.tree.nodes.last_mut().expect("root").body
    else {
        panic!("root object")
    };
    root.children.swap(0, 1);
    assert!(validate_contract(&reversed).is_err());
}

#[test]
fn arrays_switches_tables_presence_and_constants_reject_mutations() {
    let fixture = minimal_fixture();

    let mut array = fixture.contract.clone();
    let ContractNodeBody::Array(system) = array
        .tree
        .nodes
        .iter_mut()
        .find_map(|node| match &mut node.body {
            ContractNodeBody::Array(value) if value.collection == AdapterCollection::System => {
                Some(&mut node.body)
            }
            _ => None,
        })
        .expect("system array")
    else {
        panic!("array")
    };
    system.max = 1_025;
    assert!(validate_contract(&array).is_err());

    let mut crossed_collection = fixture.contract.clone();
    let ContractNodeBody::Array(system) = crossed_collection
        .tree
        .nodes
        .iter_mut()
        .find_map(|node| match &mut node.body {
            ContractNodeBody::Array(value) if value.collection == AdapterCollection::System => {
                Some(&mut node.body)
            }
            _ => None,
        })
        .expect("system array")
    else {
        panic!("array")
    };
    system.collection = AdapterCollection::Messages;
    assert!(validate_contract(&crossed_collection).is_err());

    let mut switch = fixture.contract.clone();
    let ContractNodeBody::Switch(model) = switch
        .tree
        .nodes
        .iter_mut()
        .find_map(|node| matches!(node.body, ContractNodeBody::Switch(_)).then_some(&mut node.body))
        .expect("model switch")
    else {
        panic!("switch")
    };
    model.cases.pop();
    assert!(validate_contract(&switch).is_err());

    let mut table = fixture.contract.clone();
    table.tree.tables[0].entries[1].token = "exact".to_owned();
    assert!(validate_contract(&table).is_err());

    let mut presence = fixture.contract.clone();
    let node = presence
        .tree
        .nodes
        .iter_mut()
        .find(|node| node.presence == AdapterPresence::OmitForUnset)
        .expect("optional node");
    node.presence_source = Some(AdapterPresenceSource::MaxOutput);
    assert!(validate_contract(&presence).is_err());

    let mut constant = fixture.contract.clone();
    let ContractNodeBody::Constant(value) = &mut constant
        .tree
        .nodes
        .iter_mut()
        .find(|node| matches!(node.body, ContractNodeBody::Constant(_)))
        .expect("constant")
        .body
    else {
        panic!("constant")
    };
    value.value = TypedJsonConstant::Number("01".to_owned());
    assert!(validate_contract(&constant).is_err());
}

#[test]
fn node_count_root_wrapper_and_table_reference_bounds_are_exact() {
    let fixture = minimal_fixture();

    let mut empty = fixture.contract.clone();
    empty.tree.nodes.clear();
    assert!(validate_contract(&empty).is_err());

    let mut too_many = fixture.contract.clone();
    too_many.tree.nodes = vec![
        ContractNode {
            parent: None,
            segment: None,
            presence: AdapterPresence::Required,
            presence_source: None,
            body: ContractNodeBody::Constant(ContractConstant {
                value: TypedJsonConstant::Null,
            }),
        };
        4_097
    ];
    too_many.tree.root = 4_096;
    assert!(validate_contract(&too_many).is_err());

    let mut wrong_root = fixture.contract.clone();
    wrong_root.tree.nodes.last_mut().expect("root").presence = AdapterPresence::OmitIfNone;
    wrong_root
        .tree
        .nodes
        .last_mut()
        .expect("root")
        .presence_source = Some(AdapterPresenceSource::MaxOutput);
    assert!(validate_contract(&wrong_root).is_err());

    let mut unused_table = fixture.contract.clone();
    unused_table
        .tree
        .tables
        .push(unused_table.tree.tables[0].clone());
    assert!(validate_contract(&unused_table).is_err());
}

#[test]
fn header_rules_deny_reserved_names_and_enforce_value_sets() {
    let fixture = minimal_fixture();

    let mut denied = fixture.contract.clone();
    let OrdinaryHeaderRule::Fixed(rule) = &mut denied.ordinary_header_rules[0] else {
        panic!("fixed")
    };
    rule.name = "authorization".to_owned();
    assert!(validate_contract(&denied).is_err());

    let mut empty_values = fixture.contract.clone();
    let OrdinaryHeaderRule::OneOf(rule) = &mut empty_values.ordinary_header_rules[1] else {
        panic!("one-of")
    };
    rule.values.clear();
    assert!(validate_contract(&empty_values).is_err());

    let mut duplicate_values = fixture.contract.clone();
    let OrdinaryHeaderRule::OneOf(rule) = &mut duplicate_values.ordinary_header_rules[1] else {
        panic!("one-of")
    };
    rule.values[1] = rule.values[0].clone();
    assert!(validate_contract(&duplicate_values).is_err());
}

#[test]
fn lexical_scalars_require_their_exact_switch_and_option_wrapper() {
    let mut fixture = minimal_fixture();
    let selection_value = fixture
        .contract
        .tree
        .nodes
        .iter_mut()
        .find(|node| {
            matches!(
                node.body,
                ContractNodeBody::Value(ContractValue {
                    source: AdapterScalarSource::SelectionKind,
                    ..
                })
            )
        })
        .expect("selection-kind value");
    selection_value.body = ContractNodeBody::Value(ContractValue {
        source: AdapterScalarSource::MaxOutput,
        transform: AdapterTransform::CheckedU64,
    });
    assert!(validate_contract(&fixture.contract).is_err());

    for (source, transform) in [
        (
            AdapterScalarSource::Proof,
            AdapterTransform::Base64StandardPadded,
        ),
        (
            AdapterScalarSource::ReasoningEffort,
            AdapterTransform::EnumToken(0),
        ),
        (
            AdapterScalarSource::ReasoningBudget,
            AdapterTransform::CheckedU64,
        ),
    ] {
        let table = (source == AdapterScalarSource::ReasoningEffort)
            .then_some(AdapterEnumSource::ReasoningEffort);
        let contract = single_value_contract(
            AdapterWireId::AnthropicMessages,
            source,
            transform,
            table,
        );
        assert!(validate_contract(&contract).is_err(), "{source:?}");
    }

    for (source, table_source) in [
        (
            AdapterScalarSource::MessageRole,
            AdapterEnumSource::MessageKind,
        ),
        (
            AdapterScalarSource::ToolChoiceKind,
            AdapterEnumSource::ToolChoice,
        ),
        (
            AdapterScalarSource::ReasoningMode,
            AdapterEnumSource::ReasoningMode,
        ),
        (
            AdapterScalarSource::CacheRetention,
            AdapterEnumSource::CacheRetention,
        ),
    ] {
        let contract = single_value_contract(
            AdapterWireId::AnthropicMessages,
            source,
            AdapterTransform::EnumToken(0),
            Some(table_source),
        );
        assert!(validate_contract(&contract).is_err(), "{source:?}");
    }

    let mut non_root_wrapper = minimal_fixture().contract;
    let system_item = non_root_wrapper
        .tree
        .nodes
        .iter_mut()
        .find(|node| {
            matches!(
                node.body,
                ContractNodeBody::Value(ContractValue {
                    source: AdapterScalarSource::SystemItem,
                    ..
                })
            )
        })
        .expect("system item");
    system_item.presence = AdapterPresence::OmitIfNone;
    system_item.presence_source = Some(AdapterPresenceSource::MaxOutput);
    assert!(validate_contract(&non_root_wrapper).is_err());
}

#[test]
fn unset_control_switches_require_matching_root_omission_wrappers() {
    for source in [
        AdapterVariantSource::ToolChoice,
        AdapterVariantSource::Reasoning,
        AdapterVariantSource::CacheRetention,
    ] {
        let mut nodes = Vec::new();
        let cases: Vec<_> = (0..source.variant_count())
            .map(|_| push_constant(&mut nodes, None))
            .collect();
        let switch = push_node(
            &mut nodes,
            Some(PathSegment::Key("control".to_owned())),
            ContractNodeBody::Switch(ContractSwitch {
                source,
                cases: cases
                    .iter()
                    .enumerate()
                    .map(|(ordinal, node)| ContractCase {
                        variant_ordinal: ordinal as u8,
                        node: *node,
                    })
                    .collect(),
            }),
        );
        attach(&mut nodes, switch, &cases);
        let root = push_node(
            &mut nodes,
            None,
            ContractNodeBody::Object(ContractObject {
                children: vec![switch],
            }),
        );
        attach(&mut nodes, root, &[switch]);
        let contract = AdapterContractV1 {
            version: 1,
            wire_id: AdapterWireId::AnthropicMessages,
            model_source: AdapterModelSource::CurrentModel,
            tree: ContractTree {
                root,
                nodes,
                tables: vec![],
            },
            ordinary_header_rules: vec![],
            decoder_kind: AdapterDecoderKind::AnthropicMessages,
        };
        assert!(validate_contract(&contract).is_err(), "{source:?}");
    }
}

#[test]
fn mistral_composite_accounting_rejects_both_neither_and_crossed_occurrences() {
    let composite = mistral_contract(false, true, false);
    assert!(validate_contract(&composite).is_ok());

    for contract in [
        mistral_contract(true, true, false),
        mistral_contract(false, false, false),
        mistral_contract(true, false, false),
        mistral_contract(false, true, true),
    ] {
        assert_eq!(
            validate_contract(&contract),
            Err(AdapterValidationError::InvalidContract)
        );
    }
}

#[test]
fn forbidden_wire_sources_are_rejected_even_in_inactive_branches() {
    for (wire, source, transform) in [
        (
            AdapterWireId::AnthropicMessages,
            AdapterScalarSource::ToolResultName,
            AdapterTransform::Identity,
        ),
        (
            AdapterWireId::OpenAiResponses,
            AdapterScalarSource::ToolResultIsError,
            AdapterTransform::Identity,
        ),
        (
            AdapterWireId::PiMessages,
            AdapterScalarSource::ToolResultStatus,
            AdapterTransform::EnumToken(0),
        ),
    ] {
        let table = (source == AdapterScalarSource::ToolResultStatus)
            .then_some(AdapterEnumSource::ToolResultStatus);
        let contract = single_value_contract(wire, source, transform, table);
        assert!(validate_contract(&contract).is_err(), "{wire:?} {source:?}");
    }
}

fn mistral_contract(
    normal: bool,
    composite: bool,
    crossed: bool,
) -> AdapterContractV1 {
    let mut nodes = Vec::new();
    let user_case = push_constant(&mut nodes, None);
    let assistant_case = push_constant(&mut nodes, None);

    let mut result_children = Vec::new();
    if normal {
        let block_text_case = push_constant(&mut nodes, None);
        let block_image_case = push_constant(&mut nodes, None);
        let block_switch = push_node(
            &mut nodes,
            Some(PathSegment::ArrayItem),
            ContractNodeBody::Switch(ContractSwitch {
                source: AdapterVariantSource::ToolResultBlock,
                cases: vec![
                    ContractCase {
                        variant_ordinal: 0,
                        node: block_text_case,
                    },
                    ContractCase {
                        variant_ordinal: 1,
                        node: block_image_case,
                    },
                ],
            }),
        );
        attach(
            &mut nodes,
            block_switch,
            &[block_text_case, block_image_case],
        );
        let blocks = push_node(
            &mut nodes,
            Some(PathSegment::Key("blocks".to_owned())),
            ContractNodeBody::Array(ContractArray {
                collection: AdapterCollection::Blocks,
                item: block_switch,
                min: 1,
                max: 4_096,
            }),
        );
        attach(&mut nodes, blocks, &[block_switch]);
        result_children.push(blocks);
    }
    if composite {
        let content = push_node(
            &mut nodes,
            Some(PathSegment::Key("content".to_owned())),
            ContractNodeBody::Value(ContractValue {
                source: AdapterScalarSource::MistralToolResultContent,
                transform: AdapterTransform::MistralToolResultContent,
            }),
        );
        result_children.push(content);
    }
    let result_case = push_node(
        &mut nodes,
        None,
        ContractNodeBody::Object(ContractObject {
            children: result_children.clone(),
        }),
    );
    attach(&mut nodes, result_case, &result_children);

    let message_cases = if crossed {
        vec![result_case, assistant_case, user_case]
    } else {
        vec![user_case, assistant_case, result_case]
    };
    let message_switch = push_node(
        &mut nodes,
        Some(PathSegment::ArrayItem),
        ContractNodeBody::Switch(ContractSwitch {
            source: AdapterVariantSource::Message,
            cases: message_cases
                .iter()
                .enumerate()
                .map(|(ordinal, node)| ContractCase {
                    variant_ordinal: ordinal as u8,
                    node: *node,
                })
                .collect(),
        }),
    );
    attach(&mut nodes, message_switch, &message_cases);
    let messages = push_node(
        &mut nodes,
        Some(PathSegment::Key("messages".to_owned())),
        ContractNodeBody::Array(ContractArray {
            collection: AdapterCollection::Messages,
            item: message_switch,
            min: 0,
            max: 4_096,
        }),
    );
    attach(&mut nodes, messages, &[message_switch]);
    let root = push_node(
        &mut nodes,
        None,
        ContractNodeBody::Object(ContractObject {
            children: vec![messages],
        }),
    );
    attach(&mut nodes, root, &[messages]);

    AdapterContractV1 {
        version: 1,
        wire_id: AdapterWireId::MistralConversations,
        model_source: AdapterModelSource::CurrentModel,
        tree: ContractTree {
            root,
            nodes,
            tables: vec![],
        },
        ordinary_header_rules: vec![],
        decoder_kind: AdapterDecoderKind::MistralConversations,
    }
}

fn push_constant(nodes: &mut Vec<ContractNode>, segment: Option<PathSegment>) -> u32 {
    push_node(
        nodes,
        segment,
        ContractNodeBody::Constant(ContractConstant {
            value: TypedJsonConstant::Null,
        }),
    )
}

fn push_node(
    nodes: &mut Vec<ContractNode>,
    segment: Option<PathSegment>,
    body: ContractNodeBody,
) -> u32 {
    let index = nodes.len() as u32;
    nodes.push(ContractNode {
        parent: None,
        segment,
        presence: AdapterPresence::Required,
        presence_source: None,
        body,
    });
    index
}

fn attach(nodes: &mut [ContractNode], parent: u32, children: &[u32]) {
    for child in children {
        nodes[*child as usize].parent = Some(parent);
    }
}
