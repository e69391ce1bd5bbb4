//! Exhaustive closed source, transform, enum, and wire matrix tests.

use mcode_plugin_host::provider_validation::adapter::structure::validate_transform;
use mcode_plugin_host::provider_validation::adapter::types::{
    AdapterContractV1, AdapterDecoderKind, AdapterEnumSource, AdapterModelSource,
    AdapterPresence, AdapterScalarSource, AdapterTransform, AdapterWireId, ContractNode,
    ContractNodeBody, ContractObject, ContractTree, ContractValue, EnumTokenEntry,
    EnumTokenTable, PathSegment,
};

fn single_value_contract(
    wire_id: AdapterWireId,
    source: AdapterScalarSource,
    transform: AdapterTransform,
    table_source: Option<AdapterEnumSource>,
) -> AdapterContractV1 {
    let tables = table_source
        .map(|source| {
            vec![EnumTokenTable {
                source,
                entries: (0..source.variant_count())
                    .map(|variant_ordinal| EnumTokenEntry {
                        variant_ordinal,
                        token: format!("v{variant_ordinal}"),
                    })
                    .collect(),
            }]
        })
        .unwrap_or_default();
    AdapterContractV1 {
        version: 1,
        wire_id,
        model_source: AdapterModelSource::CurrentModel,
        tree: ContractTree {
            root: 1,
            nodes: vec![
                ContractNode {
                    parent: Some(1),
                    segment: Some(PathSegment::Key("value".to_owned())),
                    presence: AdapterPresence::Required,
                    presence_source: None,
                    body: ContractNodeBody::Value(ContractValue { source, transform }),
                },
                ContractNode {
                    parent: None,
                    segment: None,
                    presence: AdapterPresence::Required,
                    presence_source: None,
                    body: ContractNodeBody::Object(ContractObject { children: vec![0] }),
                },
            ],
            tables,
        },
        ordinary_header_rules: vec![],
        decoder_kind: decoder_for(wire_id),
    }
}

fn decoder_for(wire_id: AdapterWireId) -> AdapterDecoderKind {
    match wire_id {
        AdapterWireId::AnthropicMessages => AdapterDecoderKind::AnthropicMessages,
        AdapterWireId::OpenAiCompletions => AdapterDecoderKind::OpenAiCompletions,
        AdapterWireId::OpenAiResponses => AdapterDecoderKind::OpenAiResponses,
        AdapterWireId::OpenAiCodexResponses => AdapterDecoderKind::OpenAiCodexResponses,
        AdapterWireId::AzureOpenAiResponses => AdapterDecoderKind::AzureOpenAiResponses,
        AdapterWireId::GoogleGenerativeAi => AdapterDecoderKind::GoogleGenerativeAi,
        AdapterWireId::GoogleVertex => AdapterDecoderKind::GoogleVertex,
        AdapterWireId::MistralConversations => AdapterDecoderKind::MistralConversations,
        AdapterWireId::BedrockConverseStream => AdapterDecoderKind::BedrockConverseStream,
        AdapterWireId::PiMessages => AdapterDecoderKind::PiMessages,
    }
}

const SOURCES: [AdapterScalarSource; 33] = [
    AdapterScalarSource::SelectedModel,
    AdapterScalarSource::SelectionKind,
    AdapterScalarSource::SystemItem,
    AdapterScalarSource::SystemJoined,
    AdapterScalarSource::MessageRole,
    AdapterScalarSource::BlockKind,
    AdapterScalarSource::BlockText,
    AdapterScalarSource::ToolResultCallId,
    AdapterScalarSource::ToolResultIsError,
    AdapterScalarSource::ToolResultStatus,
    AdapterScalarSource::ToolResultName,
    AdapterScalarSource::MistralToolResultContent,
    AdapterScalarSource::ToolCallId,
    AdapterScalarSource::ToolCallName,
    AdapterScalarSource::ToolCallArguments,
    AdapterScalarSource::ToolName,
    AdapterScalarSource::ToolDescription,
    AdapterScalarSource::ToolSchema,
    AdapterScalarSource::ReasoningKind,
    AdapterScalarSource::Proof,
    AdapterScalarSource::ImageBytes,
    AdapterScalarSource::ImageMediaType,
    AdapterScalarSource::ImageWidth,
    AdapterScalarSource::ImageHeight,
    AdapterScalarSource::ImageFrames,
    AdapterScalarSource::ImageDataUri,
    AdapterScalarSource::ToolChoiceKind,
    AdapterScalarSource::ToolChoiceName,
    AdapterScalarSource::ReasoningMode,
    AdapterScalarSource::ReasoningEffort,
    AdapterScalarSource::ReasoningBudget,
    AdapterScalarSource::CacheRetention,
    AdapterScalarSource::MaxOutput,
];

const WIRES: [AdapterWireId; 10] = [
    AdapterWireId::AnthropicMessages,
    AdapterWireId::OpenAiCompletions,
    AdapterWireId::OpenAiResponses,
    AdapterWireId::OpenAiCodexResponses,
    AdapterWireId::AzureOpenAiResponses,
    AdapterWireId::GoogleGenerativeAi,
    AdapterWireId::GoogleVertex,
    AdapterWireId::MistralConversations,
    AdapterWireId::BedrockConverseStream,
    AdapterWireId::PiMessages,
];

#[test]
fn every_source_transform_wire_cell_matches_the_closed_matrix() {
    for wire in WIRES {
        for source in SOURCES {
            for transform in transforms() {
                let table = table_for(source, &transform);
                let contract = single_value_contract(wire, source, transform.clone(), table);
                assert_eq!(
                    validate_transform(&contract, source, &transform).is_ok(),
                    legal(wire, source, &transform),
                    "{wire:?} {source:?} {transform:?}"
                );
            }
        }
    }
}

#[test]
fn every_enum_source_rejects_a_crossed_table() {
    for source in SOURCES {
        let Some(table) = enum_table(source) else {
            continue;
        };
        let crossed = if table == AdapterEnumSource::SelectionKind {
            AdapterEnumSource::ReasoningKind
        } else {
            AdapterEnumSource::SelectionKind
        };
        let transform = AdapterTransform::EnumToken(0);
        let contract = single_value_contract(
            AdapterWireId::AnthropicMessages,
            source,
            transform.clone(),
            Some(crossed),
        );
        assert!(
            validate_transform(&contract, source, &transform).is_err(),
            "{source:?}"
        );
    }
}

fn transforms() -> [AdapterTransform; 11] {
    [
        AdapterTransform::Identity,
        AdapterTransform::CheckedU32,
        AdapterTransform::CheckedU64,
        AdapterTransform::JsonSubtree,
        AdapterTransform::CanonicalJsonString,
        AdapterTransform::MistralToolResultContent,
        AdapterTransform::JoinLf,
        AdapterTransform::Base64StandardPadded,
        AdapterTransform::Base64StandardUnpadded,
        AdapterTransform::DataUri,
        AdapterTransform::EnumToken(0),
    ]
}

fn legal(wire: AdapterWireId, source: AdapterScalarSource, transform: &AdapterTransform) -> bool {
    match source {
        AdapterScalarSource::SelectedModel
        | AdapterScalarSource::SystemItem
        | AdapterScalarSource::BlockText
        | AdapterScalarSource::ToolResultCallId
        | AdapterScalarSource::ToolResultIsError
        | AdapterScalarSource::ToolResultName
        | AdapterScalarSource::ToolCallId
        | AdapterScalarSource::ToolCallName
        | AdapterScalarSource::ToolName
        | AdapterScalarSource::ToolDescription
        | AdapterScalarSource::ToolChoiceName => matches!(transform, AdapterTransform::Identity),
        AdapterScalarSource::SelectionKind
        | AdapterScalarSource::MessageRole
        | AdapterScalarSource::BlockKind
        | AdapterScalarSource::ToolResultStatus
        | AdapterScalarSource::ReasoningKind
        | AdapterScalarSource::ImageMediaType
        | AdapterScalarSource::ToolChoiceKind
        | AdapterScalarSource::ReasoningMode
        | AdapterScalarSource::ReasoningEffort
        | AdapterScalarSource::CacheRetention => matches!(transform, AdapterTransform::EnumToken(0)),
        AdapterScalarSource::ImageWidth | AdapterScalarSource::ImageHeight | AdapterScalarSource::ImageFrames => {
            matches!(transform, AdapterTransform::CheckedU32)
        }
        AdapterScalarSource::ReasoningBudget | AdapterScalarSource::MaxOutput => {
            matches!(transform, AdapterTransform::CheckedU64)
        }
        AdapterScalarSource::ToolCallArguments => {
            matches!(transform, AdapterTransform::JsonSubtree)
                || (matches!(transform, AdapterTransform::CanonicalJsonString)
                    && matches!(
                        wire,
                        AdapterWireId::OpenAiCompletions
                            | AdapterWireId::OpenAiResponses
                            | AdapterWireId::OpenAiCodexResponses
                            | AdapterWireId::AzureOpenAiResponses
                            | AdapterWireId::MistralConversations
                    ))
        }
        AdapterScalarSource::ToolSchema => matches!(transform, AdapterTransform::JsonSubtree),
        AdapterScalarSource::Proof | AdapterScalarSource::ImageBytes => matches!(
            transform,
            AdapterTransform::Base64StandardPadded | AdapterTransform::Base64StandardUnpadded
        ),
        AdapterScalarSource::SystemJoined => matches!(transform, AdapterTransform::JoinLf),
        AdapterScalarSource::ImageDataUri => matches!(transform, AdapterTransform::DataUri),
        AdapterScalarSource::MistralToolResultContent => {
            wire == AdapterWireId::MistralConversations
                && matches!(transform, AdapterTransform::MistralToolResultContent)
        }
    }
}

fn table_for(
    source: AdapterScalarSource,
    transform: &AdapterTransform,
) -> Option<AdapterEnumSource> {
    matches!(transform, AdapterTransform::EnumToken(_))
        .then(|| enum_table(source))
        .flatten()
}

fn enum_table(source: AdapterScalarSource) -> Option<AdapterEnumSource> {
    match source {
        AdapterScalarSource::SelectionKind => Some(AdapterEnumSource::SelectionKind),
        AdapterScalarSource::MessageRole => Some(AdapterEnumSource::MessageKind),
        AdapterScalarSource::BlockKind => Some(AdapterEnumSource::UserBlockKind),
        AdapterScalarSource::ToolResultStatus => Some(AdapterEnumSource::ToolResultStatus),
        AdapterScalarSource::ReasoningKind => Some(AdapterEnumSource::ReasoningKind),
        AdapterScalarSource::ImageMediaType => Some(AdapterEnumSource::ImageMediaType),
        AdapterScalarSource::ToolChoiceKind => Some(AdapterEnumSource::ToolChoice),
        AdapterScalarSource::ReasoningMode => Some(AdapterEnumSource::ReasoningMode),
        AdapterScalarSource::ReasoningEffort => Some(AdapterEnumSource::ReasoningEffort),
        AdapterScalarSource::CacheRetention => Some(AdapterEnumSource::CacheRetention),
        _ => None,
    }
}
