//! Typed adapter digest ordering mutation tests.

use mcode_plugin_host::provider_api::{
    CacheRetention, CapabilitySupport, CatalogEntry, IdText, InputModality, ModelSelection,
    OrdinaryHeader, PrepareInput, Reasoning, ReasoningCapability, ToolCapability, ToolChoice,
    WireJsonArray, WireJsonDocument, WireJsonField, WireJsonNode, WireJsonObject,
};
use mcode_plugin_host::provider_validation::adapter::digest::{
    body_digest, contract_digest, ordinary_header_digest,
};
use mcode_plugin_host::provider_validation::adapter::types::{
    AdapterCollection, AdapterContractV1, AdapterDecoderKind, AdapterEnumSource,
    AdapterModelSource, AdapterPresence, AdapterPresenceSource, AdapterScalarSource,
    AdapterTransform, AdapterVariantSource, AdapterWireId, ContractArray, ContractCase,
    ContractConstant, ContractNode, ContractNodeBody, ContractObject, ContractSwitch,
    ContractTree, ContractValue, EnumTokenEntry, EnumTokenTable, FixedHeaderRule,
    OneOfHeaderRule, OrdinaryHeaderRule, PathSegment, TypedJsonConstant,
    ValidatedCatalogEntryView,
};

const DIGEST: &str =
    "sha256:0123456789abcdef0123456789abcdef0123456789abcdef0123456789abcdef";

#[derive(Default)]
struct ContractBuilder {
    nodes: Vec<ContractNode>,
}

struct DummyFixture {
    contract: AdapterContractV1,
    entry: CatalogEntry,
    original: PrepareInput,
    body: WireJsonDocument,
    headers: Vec<OrdinaryHeader>,
}

impl ContractBuilder {
    fn push(
        &mut self,
        segment: Option<PathSegment>,
        presence: AdapterPresence,
        presence_source: Option<AdapterPresenceSource>,
        body: ContractNodeBody,
    ) -> u32 {
        let index = u32::try_from(self.nodes.len()).expect("dummy contract node count");
        self.nodes.push(ContractNode {
            parent: None,
            segment,
            presence,
            presence_source,
            body,
        });
        index
    }

    fn attach(&mut self, parent: u32, children: &[u32]) {
        for child in children {
            self.nodes[*child as usize].parent = Some(parent);
        }
    }

    fn object(
        &mut self,
        segment: Option<PathSegment>,
        presence: AdapterPresence,
        presence_source: Option<AdapterPresenceSource>,
        children: Vec<u32>,
    ) -> u32 {
        let node = self.push(
            segment,
            presence,
            presence_source,
            ContractNodeBody::Object(ContractObject {
                children: children.clone(),
            }),
        );
        self.attach(node, &children);
        node
    }

    fn array(
        &mut self,
        segment: Option<PathSegment>,
        collection: AdapterCollection,
        item: u32,
        min: u32,
        max: u32,
    ) -> u32 {
        let node = self.push(
            segment,
            AdapterPresence::Required,
            None,
            ContractNodeBody::Array(ContractArray {
                collection,
                item,
                min,
                max,
            }),
        );
        self.attach(node, &[item]);
        node
    }

    fn switch(
        &mut self,
        segment: Option<PathSegment>,
        presence: AdapterPresence,
        presence_source: Option<AdapterPresenceSource>,
        source: AdapterVariantSource,
        cases: Vec<u32>,
    ) -> u32 {
        let node = self.push(
            segment,
            presence,
            presence_source,
            ContractNodeBody::Switch(ContractSwitch {
                source,
                cases: cases
                    .iter()
                    .enumerate()
                    .map(|(ordinal, node)| ContractCase {
                        variant_ordinal: ordinal as u8,
                        node: *node,
                    })
                    .collect(),
            }),
        );
        self.attach(node, &cases);
        node
    }

    fn value(
        &mut self,
        segment: Option<PathSegment>,
        presence: AdapterPresence,
        presence_source: Option<AdapterPresenceSource>,
        source: AdapterScalarSource,
        transform: AdapterTransform,
    ) -> u32 {
        self.push(
            segment,
            presence,
            presence_source,
            ContractNodeBody::Value(ContractValue { source, transform }),
        )
    }

    fn constant(
        &mut self,
        segment: Option<PathSegment>,
        presence: AdapterPresence,
        presence_source: Option<AdapterPresenceSource>,
        value: TypedJsonConstant,
    ) -> u32 {
        self.push(
            segment,
            presence,
            presence_source,
            ContractNodeBody::Constant(ContractConstant { value }),
        )
    }
}

impl DummyFixture {
    fn selected(&self) -> ValidatedCatalogEntryView<'_> {
        ValidatedCatalogEntryView {
            provider_id: Box::leak(Box::new(id("provider"))),
            route_id: Box::leak(Box::new(id("route"))),
            catalog_digest: DIGEST,
            selection: &self.entry.selection,
            current_model: &self.entry.current_model,
            input_modalities: &self.entry.input_modalities,
            tool_capability: &self.entry.tool_capability,
            reasoning_capability: &self.entry.reasoning_capability,
            context_tokens: self.entry.context_tokens,
            max_output_tokens: self.entry.max_output_tokens,
            completion_operation: &self.entry.completion_operation,
        }
    }
}

fn id(text: &str) -> IdText {
    IdText {
        text: text.to_owned(),
        canonical: true,
    }
}

fn minimal_fixture() -> DummyFixture {
    let mut builder = ContractBuilder::default();
    let selection_table = EnumTokenTable {
        source: AdapterEnumSource::SelectionKind,
        entries: vec![
            EnumTokenEntry {
                variant_ordinal: 0,
                token: "exact".to_owned(),
            },
            EnumTokenEntry {
                variant_ordinal: 1,
                token: "alias".to_owned(),
            },
        ],
    };
    let model_cases = [0, 1].map(|_| {
        let kind = builder.value(
            Some(PathSegment::Key("kind".to_owned())),
            AdapterPresence::Required,
            None,
            AdapterScalarSource::SelectionKind,
            AdapterTransform::EnumToken(0),
        );
        let value = builder.value(
            Some(PathSegment::Key("value".to_owned())),
            AdapterPresence::Required,
            None,
            AdapterScalarSource::SelectedModel,
            AdapterTransform::Identity,
        );
        builder.object(None, AdapterPresence::Required, None, vec![kind, value])
    });
    let model = builder.switch(
        Some(PathSegment::Key("model".to_owned())),
        AdapterPresence::Required,
        None,
        AdapterVariantSource::ModelSelection,
        model_cases.to_vec(),
    );

    let system_item = builder.value(
        Some(PathSegment::ArrayItem),
        AdapterPresence::Required,
        None,
        AdapterScalarSource::SystemItem,
        AdapterTransform::Identity,
    );
    let system = builder.array(
        Some(PathSegment::Key("system".to_owned())),
        AdapterCollection::System,
        system_item,
        0,
        1_024,
    );
    let message_cases = (0..3)
        .map(|_| {
            builder.constant(
                None,
                AdapterPresence::Required,
                None,
                TypedJsonConstant::Null,
            )
        })
        .collect();
    let message_item = builder.switch(
        Some(PathSegment::ArrayItem),
        AdapterPresence::Required,
        None,
        AdapterVariantSource::Message,
        message_cases,
    );
    let messages = builder.array(
        Some(PathSegment::Key("messages".to_owned())),
        AdapterCollection::Messages,
        message_item,
        0,
        4_096,
    );
    let tool_name = builder.value(
        Some(PathSegment::Key("name".to_owned())),
        AdapterPresence::Required,
        None,
        AdapterScalarSource::ToolName,
        AdapterTransform::Identity,
    );
    let tool_description = builder.value(
        Some(PathSegment::Key("description".to_owned())),
        AdapterPresence::Required,
        None,
        AdapterScalarSource::ToolDescription,
        AdapterTransform::Identity,
    );
    let tool_schema = builder.value(
        Some(PathSegment::Key("schema".to_owned())),
        AdapterPresence::Required,
        None,
        AdapterScalarSource::ToolSchema,
        AdapterTransform::JsonSubtree,
    );
    let tool_item = builder.object(
        Some(PathSegment::ArrayItem),
        AdapterPresence::Required,
        None,
        vec![tool_description, tool_name, tool_schema],
    );
    let tools = builder.array(
        Some(PathSegment::Key("tools".to_owned())),
        AdapterCollection::Tools,
        tool_item,
        0,
        1_024,
    );
    let cache = builder.constant(
        Some(PathSegment::Key("cache".to_owned())),
        AdapterPresence::OmitForUnset,
        Some(AdapterPresenceSource::CacheRetention),
        TypedJsonConstant::Null,
    );
    let max_output = builder.constant(
        Some(PathSegment::Key("maxOutput".to_owned())),
        AdapterPresence::OmitIfNone,
        Some(AdapterPresenceSource::MaxOutput),
        TypedJsonConstant::Null,
    );
    let reasoning = builder.constant(
        Some(PathSegment::Key("reasoning".to_owned())),
        AdapterPresence::OmitForUnset,
        Some(AdapterPresenceSource::Reasoning),
        TypedJsonConstant::Null,
    );
    let tool_choice = builder.constant(
        Some(PathSegment::Key("toolChoice".to_owned())),
        AdapterPresence::OmitForUnset,
        Some(AdapterPresenceSource::ToolChoice),
        TypedJsonConstant::Null,
    );
    let root = builder.object(
        None,
        AdapterPresence::Required,
        None,
        vec![
            cache,
            max_output,
            messages,
            model,
            reasoning,
            system,
            tool_choice,
            tools,
        ],
    );
    let contract = AdapterContractV1 {
        version: 1,
        wire_id: AdapterWireId::AnthropicMessages,
        model_source: AdapterModelSource::CurrentModel,
        tree: ContractTree {
            root,
            nodes: builder.nodes,
            tables: vec![selection_table],
        },
        ordinary_header_rules: vec![
            OrdinaryHeaderRule::Fixed(FixedHeaderRule {
                name: "accept".to_owned(),
                value: "application/json".to_owned(),
            }),
            OrdinaryHeaderRule::OneOf(OneOfHeaderRule {
                name: "x-mode".to_owned(),
                values: vec!["fast".to_owned(), "safe".to_owned()],
                required: true,
            }),
        ],
        decoder_kind: AdapterDecoderKind::AnthropicMessages,
    };

    DummyFixture {
        contract,
        entry: catalog_entry("model"),
        original: prepare_input(),
        body: fixtures_minimal_body(),
        headers: vec![OrdinaryHeader {
            name: "x-mode".to_owned(),
            value: "safe".to_owned(),
        }],
    }
}

fn fixtures_minimal_body() -> WireJsonDocument {
    WireJsonDocument {
        root: 6,
        nodes: vec![
            WireJsonNode::StringValue("exact".to_owned()),
            WireJsonNode::StringValue("model".to_owned()),
            WireJsonNode::ObjectValue(WireJsonObject {
                fields: vec![
                    WireJsonField {
                        key: "kind".to_owned(),
                        value: 0,
                    },
                    WireJsonField {
                        key: "value".to_owned(),
                        value: 1,
                    },
                ],
            }),
            WireJsonNode::ArrayValue(WireJsonArray { items: vec![] }),
            WireJsonNode::ArrayValue(WireJsonArray { items: vec![] }),
            WireJsonNode::ArrayValue(WireJsonArray { items: vec![] }),
            WireJsonNode::ObjectValue(WireJsonObject {
                fields: vec![
                    WireJsonField {
                        key: "messages".to_owned(),
                        value: 3,
                    },
                    WireJsonField {
                        key: "model".to_owned(),
                        value: 2,
                    },
                    WireJsonField {
                        key: "system".to_owned(),
                        value: 4,
                    },
                    WireJsonField {
                        key: "tools".to_owned(),
                        value: 5,
                    },
                ],
            }),
        ],
    }
}

fn catalog_entry(model: &str) -> CatalogEntry {
    CatalogEntry {
        selection: ModelSelection::Exact(id(model)),
        current_model: id(model),
        display_name: Some("Model".to_owned()),
        input_modalities: vec![InputModality::Text, InputModality::Image],
        tool_capability: supported_tools(),
        reasoning_capability: supported_reasoning(),
        context_tokens: Some(4_096),
        max_output_tokens: Some(1_024),
        completion_operation: id("complete"),
    }
}

fn prepare_input() -> PrepareInput {
    PrepareInput {
        provider_id: id("provider"),
        route_id: id("route"),
        catalog_digest: DIGEST.to_owned(),
        selection: ModelSelection::Exact(id("model")),
        current_model: id("model"),
        operation_id: id("complete"),
        request_id: id("request-1"),
        turn_id: id("turn-1"),
        system: vec![],
        messages: vec![],
        tools: vec![],
        tool_choice: ToolChoice::Unset,
        reasoning: Reasoning::Unset,
        cache_retention: CacheRetention::Unset,
        max_output_tokens: None,
    }
}

fn supported_tools() -> ToolCapability {
    ToolCapability {
        tools: CapabilitySupport::Supported,
        auto_choice: CapabilitySupport::Supported,
        none_choice: CapabilitySupport::Supported,
        specific_choice: CapabilitySupport::Supported,
    }
}

fn supported_reasoning() -> ReasoningCapability {
    ReasoningCapability {
        reasoning: CapabilitySupport::Supported,
        effort: CapabilitySupport::Supported,
        budget: CapabilitySupport::Supported,
        proof: CapabilitySupport::Supported,
    }
}

#[test]
fn every_top_level_and_nested_contract_region_changes_the_digest() {
    let fixture = minimal_fixture();
    let original = contract_digest(&fixture.contract).expect("contract digest");

    let mut version = fixture.contract.clone();
    version.version = 2;
    assert_ne!(contract_digest(&version).expect("version digest"), original);

    let mut source = fixture.contract.clone();
    source.model_source = AdapterModelSource::RequestedSelection;
    assert_ne!(contract_digest(&source).expect("source digest"), original);

    let mut tree = fixture.contract.clone();
    let ContractNodeBody::Constant(constant) = &mut tree
        .tree
        .nodes
        .iter_mut()
        .find(|node| matches!(node.body, ContractNodeBody::Constant(_)))
        .expect("constant")
        .body
    else {
        panic!("constant")
    };
    constant.value = TypedJsonConstant::Boolean(true);
    assert_ne!(contract_digest(&tree).expect("tree digest"), original);

    let mut tables = fixture.contract.clone();
    tables.tree.tables[0].entries[0].token = "direct".to_owned();
    assert_ne!(contract_digest(&tables).expect("table digest"), original);

    let mut fixed = fixture.contract.clone();
    let OrdinaryHeaderRule::Fixed(rule) = &mut fixed.ordinary_header_rules[0] else {
        panic!("fixed")
    };
    rule.value = "text/event-stream".to_owned();
    assert_ne!(contract_digest(&fixed).expect("fixed digest"), original);

    let mut values = fixture.contract.clone();
    let OrdinaryHeaderRule::OneOf(rule) = &mut values.ordinary_header_rules[1] else {
        panic!("one-of")
    };
    rule.values.swap(0, 1);
    assert_ne!(
        contract_digest(&values).expect("value order digest"),
        original
    );
}

#[test]
fn body_and_header_digest_preimages_bind_length_count_and_order() {
    let first = body_digest(b"{}").expect("empty object digest");
    let second = body_digest(b"{\"x\":0}").expect("member object digest");
    assert_eq!(
        first,
        "sha256:9bf48f1700bc188ea7faf2c1749289fdef9e748917d486505fdbd0a331fb83cb"
    );
    assert_ne!(first, second);

    let headers = vec![
        OrdinaryHeader {
            name: "a".to_owned(),
            value: "1".to_owned(),
        },
        OrdinaryHeader {
            name: "b".to_owned(),
            value: "2".to_owned(),
        },
    ];
    let ordered = ordinary_header_digest(&headers).expect("ordered headers");
    let mut reversed_headers = headers;
    reversed_headers.reverse();
    let reversed = ordinary_header_digest(&reversed_headers).expect("reversed headers");
    assert_ne!(ordered, reversed);
}

#[test]
fn digests_of_different_kinds_differ_on_the_same_content() {
    // Eight zero bytes follow the domain of an empty body, four that of no
    // headers.
    let body = body_digest(b"").expect("empty body");
    let headers = ordinary_header_digest(&[]).expect("no headers");
    let padded = body_digest(&[0, 0, 0, 0]).expect("four zero bytes");
    assert_ne!(body, headers);
    assert_ne!(padded, headers);
    assert_eq!(body.len(), 71);
    assert!(body.starts_with("sha256:"));
}

#[test]
fn a_contract_and_its_copy_have_one_well_formed_digest() {
    let fixture = minimal_fixture();
    let original = contract_digest(&fixture.contract).expect("contract digest");
    let copy = contract_digest(&fixture.contract.clone()).expect("copy digest");
    assert_eq!(original, copy);
    assert_eq!(original.len(), 71);
    assert!(original.starts_with("sha256:"));
    assert!(original[7..]
        .bytes()
        .all(|byte| byte.is_ascii_digit() || (b'a'..=b'f').contains(&byte)));
}
