//! The render snapshot: what the host reads before drawing a frame.

use shardbearer::engine::apply_input;
use shardbearer::game::Game;
use shardbearer::render::{ending_menu_labels, render_snapshot};
use shardbearer::story::{Choice, Ending, Story, StoryNode};

fn tiny_story() -> Story {
    let nodes = vec![
        StoryNode {
            id: "start".to_string(),
            title: "Jack In".to_string(),
            ascii: Some("art block".to_string()),
            body: "Rain slicks the street.".to_string(),
            choices: vec![
                Choice { text: "Walk".to_string(), next: "end".to_string() },
                Choice { text: "Run".to_string(), next: "gone".to_string() },
            ],
            ending: None,
        },
        StoryNode {
            id: "end".to_string(),
            title: "Out".to_string(),
            ascii: None,
            body: "It is over.".to_string(),
            choices: vec![],
            ending: Some(Ending {
                code: "OUT".to_string(),
                name: "Out".to_string(),
                summary: "You left.".to_string(),
            }),
        },
    ];
    match Story::new(nodes, "start".to_string()) {
        Ok(s) => s,
        Err(_) => panic!("story must validate"),
    }
}

#[test]
fn snapshot_of_a_normal_node() {
    let story = tiny_story();
    let game = Game::new(&story);
    let r = render_snapshot(&game, &story);
    assert!(!r.missing);
    assert_eq!(r.current, "start");
    assert_eq!(r.title, "Jack In");
    assert_eq!(r.body, "Rain slicks the street.");
    assert_eq!(r.ascii.as_deref(), Some("art block"));
    assert_eq!(r.choices, vec!["Walk".to_string(), "Run".to_string()]);
    assert!(r.ending.is_none());
    assert_eq!(
        r.message.as_deref(),
        Some("Neural link established. Type 'help' for command protocols.")
    );
    assert_eq!(r.endings_count, 0);
    assert!(r.should_redraw);
}

#[test]
fn snapshot_of_an_ending_node() {
    let story = tiny_story();
    let mut game = Game::new(&story);
    apply_input(&mut game, &story, "1");
    let r = render_snapshot(&game, &story);
    assert!(!r.missing);
    assert_eq!(r.current, "end");
    assert!(r.choices.is_empty());
    let e = r.ending.expect("ending is shown");
    assert_eq!(e.code, "OUT");
    assert_eq!(e.name, "Out");
    assert_eq!(e.summary, "You left.");
    assert_eq!(r.endings_count, 1);
}

#[test]
fn snapshot_of_a_missing_node() {
    let story = tiny_story();
    let mut game = Game::new(&story);
    apply_input(&mut game, &story, "2");
    assert_eq!(game.current, "gone");
    let r = render_snapshot(&game, &story);
    assert!(r.missing);
    assert_eq!(r.current, "gone");
    assert!(r.title.is_empty());
    assert!(r.choices.is_empty());
    assert!(r.ending.is_none());
}

#[test]
fn snapshot_after_mark_rendered_is_clean() {
    let story = tiny_story();
    let mut game = Game::new(&story);
    game.mark_rendered();
    let r = render_snapshot(&game, &story);
    assert!(r.message.is_none());
    assert!(!r.should_redraw);
}

#[test]
fn ending_menu_has_three_fixed_labels() {
    let labels = ending_menu_labels();
    assert_eq!(
        labels,
        vec![
            "Reboot from the alley".to_string(),
            "Show unlocked endings".to_string(),
            "Quit".to_string()
        ]
    );
}
