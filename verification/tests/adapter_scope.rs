//! System-message sequence and lexical-scope behavior tests.

use mcode_plugin_host::provider_validation::adapter::structure::validate_contract;
use mcode_plugin_host::provider_validation::adapter::types::{
    AdapterCollection, AdapterContractV1, AdapterDecoderKind, AdapterModelSource,
    AdapterPresence, AdapterPresenceSource, AdapterScalarSource, AdapterTransform,
    AdapterVariantSource, AdapterWireId, ContractArray, ContractCase, ContractConstant,
    ContractNode, ContractNodeBody, ContractObject, ContractSwitch, ContractTree, ContractValue,
    PathSegment, TypedJsonConstant,
};

#[derive(Default)]
struct ContractBuilder {
    nodes: Vec<ContractNode>,
}

impl ContractBuilder {
    fn push(
        &mut self,
        segment: Option<PathSegment>,
        presence: AdapterPresence,
        presence_source: Option<AdapterPresenceSource>,
        body: ContractNodeBody,
    ) -> u32 {
        let index = u32::try_from(self.nodes.len()).expect("dummy contract node count");
        self.nodes.push(ContractNode {
            parent: None,
            segment,
            presence,
            presence_source,
            body,
        });
        index
    }

    fn attach(&mut self, parent: u32, children: &[u32]) {
        for child in children {
            self.nodes[*child as usize].parent = Some(parent);
        }
    }

    fn object(
        &mut self,
        segment: Option<PathSegment>,
        presence: AdapterPresence,
        presence_source: Option<AdapterPresenceSource>,
        children: Vec<u32>,
    ) -> u32 {
        let node = self.push(
            segment,
            presence,
            presence_source,
            ContractNodeBody::Object(ContractObject {
                children: children.clone(),
            }),
        );
        self.attach(node, &children);
        node
    }

    fn array(
        &mut self,
        segment: Option<PathSegment>,
        collection: AdapterCollection,
        item: u32,
        min: u32,
        max: u32,
    ) -> u32 {
        let node = self.push(
            segment,
            AdapterPresence::Required,
            None,
            ContractNodeBody::Array(ContractArray {
                collection,
                item,
                min,
                max,
            }),
        );
        self.attach(node, &[item]);
        node
    }

    fn switch(
        &mut self,
        segment: Option<PathSegment>,
        presence: AdapterPresence,
        presence_source: Option<AdapterPresenceSource>,
        source: AdapterVariantSource,
        cases: Vec<u32>,
    ) -> u32 {
        let node = self.push(
            segment,
            presence,
            presence_source,
            ContractNodeBody::Switch(ContractSwitch {
                source,
                cases: cases
                    .iter()
                    .enumerate()
                    .map(|(ordinal, node)| ContractCase {
                        variant_ordinal: ordinal as u8,
                        node: *node,
                    })
                    .collect(),
            }),
        );
        self.attach(node, &cases);
        node
    }

    fn value(
        &mut self,
        segment: Option<PathSegment>,
        presence: AdapterPresence,
        presence_source: Option<AdapterPresenceSource>,
        source: AdapterScalarSource,
        transform: AdapterTransform,
    ) -> u32 {
        self.push(
            segment,
            presence,
            presence_source,
            ContractNodeBody::Value(ContractValue { source, transform }),
        )
    }

    fn constant(
        &mut self,
        segment: Option<PathSegment>,
        presence: AdapterPresence,
        presence_source: Option<AdapterPresenceSource>,
        value: TypedJsonConstant,
    ) -> u32 {
        self.push(
            segment,
            presence,
            presence_source,
            ContractNodeBody::Constant(ContractConstant { value }),
        )
    }
}

fn decoder_for(wire_id: AdapterWireId) -> AdapterDecoderKind {
    match wire_id {
        AdapterWireId::AnthropicMessages => AdapterDecoderKind::AnthropicMessages,
        AdapterWireId::OpenAiCompletions => AdapterDecoderKind::OpenAiCompletions,
        AdapterWireId::OpenAiResponses => AdapterDecoderKind::OpenAiResponses,
        AdapterWireId::OpenAiCodexResponses => AdapterDecoderKind::OpenAiCodexResponses,
        AdapterWireId::AzureOpenAiResponses => AdapterDecoderKind::AzureOpenAiResponses,
        AdapterWireId::GoogleGenerativeAi => AdapterDecoderKind::GoogleGenerativeAi,
        AdapterWireId::GoogleVertex => AdapterDecoderKind::GoogleVertex,
        AdapterWireId::MistralConversations => AdapterDecoderKind::MistralConversations,
        AdapterWireId::BedrockConverseStream => AdapterDecoderKind::BedrockConverseStream,
        AdapterWireId::PiMessages => AdapterDecoderKind::PiMessages,
    }
}

#[test]
fn system_messages_are_enabled_only_for_the_two_frozen_wires() {
    for wire in [
        AdapterWireId::AnthropicMessages,
        AdapterWireId::OpenAiCompletions,
        AdapterWireId::OpenAiResponses,
        AdapterWireId::OpenAiCodexResponses,
        AdapterWireId::AzureOpenAiResponses,
        AdapterWireId::GoogleGenerativeAi,
        AdapterWireId::GoogleVertex,
        AdapterWireId::MistralConversations,
        AdapterWireId::BedrockConverseStream,
        AdapterWireId::PiMessages,
    ] {
        assert_eq!(
            validate_contract(&system_messages_contract(wire, false)).is_ok(),
            matches!(
                wire,
                AdapterWireId::OpenAiCompletions | AdapterWireId::MistralConversations
            ),
            "{wire:?}"
        );
    }
}

#[test]
fn system_message_entry_cases_have_disjoint_lexical_scopes() {
    assert!(
        validate_contract(&system_messages_contract(
            AdapterWireId::OpenAiCompletions,
            false
        ))
        .is_ok()
    );
    assert!(
        validate_contract(&system_messages_contract(
            AdapterWireId::OpenAiCompletions,
            true
        ))
        .is_err()
    );
}

fn system_messages_contract(wire: AdapterWireId, cross_cases: bool) -> AdapterContractV1 {
    let mut builder = ContractBuilder::default();
    let system = builder.value(
        None,
        AdapterPresence::Required,
        None,
        AdapterScalarSource::SystemItem,
        AdapterTransform::Identity,
    );
    let user = builder.constant(
        None,
        AdapterPresence::Required,
        None,
        TypedJsonConstant::Null,
    );
    let assistant = builder.constant(
        None,
        AdapterPresence::Required,
        None,
        TypedJsonConstant::Null,
    );
    let result = if wire == AdapterWireId::MistralConversations {
        let content = builder.value(
            Some(PathSegment::Key("content".to_owned())),
            AdapterPresence::Required,
            None,
            AdapterScalarSource::MistralToolResultContent,
            AdapterTransform::MistralToolResultContent,
        );
        builder.object(None, AdapterPresence::Required, None, vec![content])
    } else {
        builder.constant(
            None,
            AdapterPresence::Required,
            None,
            TypedJsonConstant::Null,
        )
    };
    let message = builder.switch(
        None,
        AdapterPresence::Required,
        None,
        AdapterVariantSource::Message,
        vec![user, assistant, result],
    );
    let cases = if cross_cases {
        vec![message, system]
    } else {
        vec![system, message]
    };
    let item = builder.switch(
        Some(PathSegment::ArrayItem),
        AdapterPresence::Required,
        None,
        AdapterVariantSource::SystemMessageEntry,
        cases,
    );
    let sequence = builder.array(
        Some(PathSegment::Key("entries".to_owned())),
        AdapterCollection::SystemMessages,
        item,
        0,
        5_120,
    );
    let root = builder.object(None, AdapterPresence::Required, None, vec![sequence]);
    AdapterContractV1 {
        version: 1,
        wire_id: wire,
        model_source: AdapterModelSource::CurrentModel,
        tree: ContractTree {
            root,
            nodes: builder.nodes,
            tables: vec![],
        },
        ordinary_header_rules: vec![],
        decoder_kind: decoder_for(wire),
    }
}
