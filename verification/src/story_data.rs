//! Plain data structures mirroring the story's declarative document
//! shape: named nodes grouped into paths, shared nodes, and endings.
//! The host parses the document and hands these to the converter.

use vstd::prelude::*;

verus! {

/// One choice record of the document.
pub struct ChoiceData {
    pub text: String,
    pub next: String,
}

/// One ending record of the document.
pub struct EndingData {
    pub code: String,
    pub name: String,
    pub summary: String,
}

/// One node record of the document. `ascii_art` names an art block by
/// key; the converter resolves it against the art table.
pub struct StoryNodeData {
    pub id: String,
    pub title: String,
    pub ascii_art: Option<String>,
    pub body: String,
    pub choices: Vec<ChoiceData>,
    pub ending: Option<EndingData>,
}

/// A flat story document: nodes keyed by id, and the start id.
pub struct StoryData {
    pub nodes: Vec<(String, StoryNodeData)>,
    pub start: String,
}

/// Descriptive header of a story document.
pub struct StoryMetadata {
    pub id: String,
    pub title: String,
    pub author: String,
    pub version: String,
    pub description: String,
    pub start_node: String,
    pub tags: Vec<String>,
}

/// The organized story document: a start node, named paths each holding
/// named nodes, optional shared nodes, and the ending nodes.
pub struct StoryFlowData {
    pub start: StoryNodeData,
    pub paths: Vec<(String, Vec<(String, StoryNodeData)>)>,
    pub shared_nodes: Option<Vec<(String, StoryNodeData)>>,
    pub endings: Vec<(String, StoryNodeData)>,
}

} // verus!
