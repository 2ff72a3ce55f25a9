//! Behavior of story validation, document conversion, and export.

use shardbearer::story::{Choice, Ending, LoadError, Story, StoryNode};
use shardbearer::story_data::{ChoiceData, EndingData, StoryData, StoryFlowData, StoryNodeData};
use shardbearer::story_loader::StoryLoader;

fn node_data(
    id: &str,
    ascii_art: Option<&str>,
    choices: Vec<(&str, &str)>,
    ending: Option<(&str, &str, &str)>,
) -> StoryNodeData {
    StoryNodeData {
        id: id.to_string(),
        title: format!("Title of {}", id),
        ascii_art: ascii_art.map(|k| k.to_string()),
        body: format!("Body of {}", id),
        choices: choices
            .into_iter()
            .map(|(text, next)| ChoiceData { text: text.to_string(), next: next.to_string() })
            .collect(),
        ending: ending.map(|(code, name, summary)| EndingData {
            code: code.to_string(),
            name: name.to_string(),
            summary: summary.to_string(),
        }),
    }
}

fn art_table() -> Vec<(String, String)> {
    vec![
        ("terminal".to_string(), "BACK-ALLEY TERMINAL art".to_string()),
        ("spire".to_string(), "the Helix Spire at night".to_string()),
    ]
}

#[test]
fn convert_story_data_builds_a_story() {
    let data = StoryData {
        nodes: vec![
            (
                "start".to_string(),
                node_data("start", Some("terminal"), vec![("Go", "end")], None),
            ),
            (
                "end".to_string(),
                node_data("end", None, vec![], Some(("END", "The End", "Done."))),
            ),
        ],
        start: "start".to_string(),
    };
    let story = match StoryLoader::convert_story_data(data, art_table()) {
        Ok(s) => s,
        Err(_) => panic!("conversion must succeed"),
    };
    assert_eq!(story.start_id().as_str(), "start");
    let start = story.get_node("start").expect("start exists");
    assert_eq!(start.id, "start");
    assert_eq!(start.title, "Title of start");
    assert_eq!(start.ascii.as_deref(), Some("BACK-ALLEY TERMINAL art"));
    assert_eq!(start.choices.len(), 1);
    assert_eq!(start.choices[0].text, "Go");
    assert_eq!(start.choices[0].next, "end");
    let end = story.get_node("end").expect("end exists");
    assert!(end.ending.is_some());
    assert_eq!(end.ending.as_ref().unwrap().code, "END");
    assert!(story.get_node("nowhere").is_none());
}

#[test]
fn map_key_wins_over_inner_id() {
    let data = StoryData {
        nodes: vec![(
            "keyed".to_string(),
            node_data("inner_id", None, vec![], None),
        )],
        start: "keyed".to_string(),
    };
    let story = match StoryLoader::convert_story_data(data, vec![]) {
        Ok(s) => s,
        Err(_) => panic!("conversion must succeed"),
    };
    let n = story.get_node("keyed").expect("keyed by map key");
    assert_eq!(n.id, "keyed");
    assert!(story.get_node("inner_id").is_none());
}

#[test]
fn unknown_art_key_resolves_to_none() {
    let data = StoryData {
        nodes: vec![(
            "start".to_string(),
            node_data("start", Some("no_such_key"), vec![], None),
        )],
        start: "start".to_string(),
    };
    let story = match StoryLoader::convert_story_data(data, art_table()) {
        Ok(s) => s,
        Err(_) => panic!("conversion must succeed"),
    };
    assert!(story.get_node("start").unwrap().ascii.is_none());
}

#[test]
fn duplicate_id_is_refused() {
    let nodes = vec![
        StoryNode {
            id: "a".to_string(),
            title: String::new(),
            ascii: None,
            body: String::new(),
            choices: vec![],
            ending: None,
        },
        StoryNode {
            id: "a".to_string(),
            title: String::new(),
            ascii: None,
            body: String::new(),
            choices: vec![],
            ending: None,
        },
    ];
    match Story::new(nodes, "a".to_string()) {
        Err(LoadError::DuplicateId(id)) => assert_eq!(id, "a"),
        _ => panic!("expected a duplicate-id error"),
    }
}

#[test]
fn missing_start_is_refused() {
    let nodes = vec![StoryNode {
        id: "a".to_string(),
        title: String::new(),
        ascii: None,
        body: String::new(),
        choices: vec![],
        ending: None,
    }];
    match Story::new(nodes, "nowhere".to_string()) {
        Err(LoadError::MissingStart(id)) => assert_eq!(id, "nowhere"),
        _ => panic!("expected a missing-start error"),
    }
}

#[test]
fn ending_with_choices_is_refused() {
    let nodes = vec![StoryNode {
        id: "a".to_string(),
        title: String::new(),
        ascii: None,
        body: String::new(),
        choices: vec![Choice { text: "t".to_string(), next: "a".to_string() }],
        ending: Some(Ending {
            code: "E".to_string(),
            name: "E".to_string(),
            summary: String::new(),
        }),
    }];
    match Story::new(nodes, "a".to_string()) {
        Err(LoadError::EndingWithChoices(id)) => assert_eq!(id, "a"),
        _ => panic!("expected an ending-with-choices error"),
    }
}

#[test]
fn flow_conversion_assembles_all_sections() {
    let flow = StoryFlowData {
        start: node_data("start", None, vec![("Go", "mid")], None),
        paths: vec![(
            "main".to_string(),
            vec![("mid".to_string(), node_data("mid", None, vec![("On", "shared")], None))],
        )],
        shared_nodes: Some(vec![(
            "shared".to_string(),
            node_data("shared", None, vec![("Finish", "fin")], None),
        )]),
        endings: vec![(
            "fin".to_string(),
            node_data("fin", None, vec![], Some(("FIN", "Fin", "Over."))),
        )],
    };
    let story = match StoryLoader::convert_story_flow(flow, vec![]) {
        Ok(s) => s,
        Err(_) => panic!("flow conversion must succeed"),
    };
    assert_eq!(story.start_id().as_str(), "start");
    assert!(story.get_node("start").is_some());
    assert!(story.get_node("mid").is_some());
    assert!(story.get_node("shared").is_some());
    let fin = story.get_node("fin").expect("ending node");
    assert_eq!(fin.ending.as_ref().unwrap().code, "FIN");
}

#[test]
fn later_section_overrides_earlier_key() {
    let flow = StoryFlowData {
        start: node_data("start", None, vec![("Go", "dup")], None),
        paths: vec![(
            "p".to_string(),
            vec![(
                "dup".to_string(),
                node_data("dup", None, vec![("Old", "start")], None),
            )],
        )],
        shared_nodes: None,
        endings: vec![(
            "dup".to_string(),
            node_data("dup", None, vec![], Some(("DUP", "Dup", "Overrode."))),
        )],
    };
    let story = match StoryLoader::convert_story_flow(flow, vec![]) {
        Ok(s) => s,
        Err(_) => panic!("flow conversion must succeed"),
    };
    let dup = story.get_node("dup").expect("deduplicated node");
    assert!(dup.choices.is_empty());
    assert_eq!(dup.ending.as_ref().unwrap().code, "DUP");
}

#[test]
fn flow_with_ending_and_choices_is_refused() {
    let flow = StoryFlowData {
        start: node_data("start", None, vec![], None),
        paths: vec![],
        shared_nodes: None,
        endings: vec![(
            "bad".to_string(),
            node_data("bad", None, vec![("Oops", "start")], Some(("B", "B", "B"))),
        )],
    };
    match StoryLoader::convert_story_flow(flow, vec![]) {
        Err(LoadError::EndingWithChoices(id)) => assert_eq!(id, "bad"),
        _ => panic!("expected an ending-with-choices error"),
    }
}

#[test]
fn export_maps_art_to_keys() {
    let nodes = vec![
        StoryNode {
            id: "a".to_string(),
            title: "A".to_string(),
            ascii: Some("a BACK-ALLEY TERMINAL glows".to_string()),
            body: "body a".to_string(),
            choices: vec![Choice { text: "go".to_string(), next: "b".to_string() }],
            ending: None,
        },
        StoryNode {
            id: "b".to_string(),
            title: "B".to_string(),
            ascii: Some("nothing recognizable".to_string()),
            body: "body b".to_string(),
            choices: vec![],
            ending: Some(Ending {
                code: "E".to_string(),
                name: "End".to_string(),
                summary: "done".to_string(),
            }),
        },
    ];
    let story = match Story::new(nodes, "a".to_string()) {
        Ok(s) => s,
        Err(_) => panic!("story must validate"),
    };
    let data = StoryLoader::export_story_to_json(&story);
    assert_eq!(data.start, "a");
    assert_eq!(data.nodes.len(), 2);
    let (key_a, nd_a) = &data.nodes[0];
    assert_eq!(key_a, "a");
    assert_eq!(nd_a.id, "a");
    assert_eq!(nd_a.title, "A");
    assert_eq!(nd_a.ascii_art.as_deref(), Some("terminal"));
    assert_eq!(nd_a.choices.len(), 1);
    assert_eq!(nd_a.choices[0].text, "go");
    assert_eq!(nd_a.choices[0].next, "b");
    let (key_b, nd_b) = &data.nodes[1];
    assert_eq!(key_b, "b");
    assert_eq!(nd_b.ascii_art.as_deref(), Some("unknown"));
    assert_eq!(nd_b.ending.as_ref().unwrap().code, "E");
}

#[test]
fn export_then_convert_round_trips() {
    let nodes = vec![
        StoryNode {
            id: "start".to_string(),
            title: "Start".to_string(),
            ascii: None,
            body: "At the start.".to_string(),
            choices: vec![Choice { text: "on".to_string(), next: "end".to_string() }],
            ending: None,
        },
        StoryNode {
            id: "end".to_string(),
            title: "End".to_string(),
            ascii: None,
            body: "Done.".to_string(),
            choices: vec![],
            ending: Some(Ending {
                code: "E".to_string(),
                name: "End".to_string(),
                summary: "over".to_string(),
            }),
        },
    ];
    let story = match Story::new(nodes, "start".to_string()) {
        Ok(s) => s,
        Err(_) => panic!("story must validate"),
    };
    let data = StoryLoader::export_story_to_json(&story);
    let story2 = match StoryLoader::convert_story_data(data, vec![]) {
        Ok(s) => s,
        Err(_) => panic!("re-conversion must succeed"),
    };
    let n = story2.get_node("start").expect("start survives");
    assert_eq!(n.title, "Start");
    assert_eq!(n.choices[0].next, "end");
    let e = story2.get_node("end").expect("end survives");
    assert_eq!(e.ending.as_ref().unwrap().summary, "over");
}
