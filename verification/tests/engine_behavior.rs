//! Behavior of the session engine: navigation, global commands, the
//! ending menu, error recovery, and the redraw discipline.

use shardbearer::engine::apply_input;
use shardbearer::game::Game;
use shardbearer::story::{Choice, Ending, Story, StoryNode};

fn node(id: &str, choices: Vec<(&str, &str)>, ending: Option<(&str, &str, &str)>) -> StoryNode {
    StoryNode {
        id: id.to_string(),
        title: format!("Title of {}", id),
        ascii: None,
        body: format!("Body of {}", id),
        choices: choices
            .into_iter()
            .map(|(text, next)| Choice { text: text.to_string(), next: next.to_string() })
            .collect(),
        ending: ending.map(|(code, name, summary)| Ending {
            code: code.to_string(),
            name: name.to_string(),
            summary: summary.to_string(),
        }),
    }
}

/// A small graph: start has four choices; two distinct routes reach the
/// same ending code; one choice dangles.
fn sample_story() -> Story {
    let nodes = vec![
        node(
            "start",
            vec![
                ("Enter the alley", "alley"),
                ("Sell the moth", "sell_moth"),
                ("Climb the spire", "spire"),
                ("Follow the ghost", "ghost"),
            ],
            None,
        ),
        node("alley", vec![("Break free", "free_end")], None),
        node("sell_moth", vec![("Walk away", "free_end"), ("Go back in", "alley")], None),
        node("spire", vec![("Leap", "missing_node")], None),
        node("ghost", vec![("Accept", "ghost_end")], None),
        node("free_end", vec![], Some(("LIBERATION", "Liberation", "You walk free."))),
        node("ghost_end", vec![], Some(("GHOST", "Ghost", "You fade."))),
    ];
    match Story::new(nodes, "start".to_string()) {
        Ok(s) => s,
        Err(_) => panic!("sample story must validate"),
    }
}

fn fresh() -> (Story, Game) {
    let story = sample_story();
    let game = Game::new(&story);
    (story, game)
}

#[test]
fn new_session_starts_at_start() {
    let (story, game) = fresh();
    assert_eq!(game.current, "start");
    assert!(game.history.is_empty());
    assert!(game.endings_unlocked.is_empty());
    assert!(game.should_redraw);
    assert!(!game.ended);
    assert!(!game.quit);
    assert_eq!(
        game.message.as_deref(),
        Some("Neural link established. Type 'help' for command protocols.")
    );
    assert_eq!(story.start_id().as_str(), "start");
}

#[test]
fn choice_navigates_and_pushes_history() {
    let (story, mut game) = fresh();
    apply_input(&mut game, &story, "2");
    assert_eq!(game.current, "sell_moth");
    assert_eq!(game.history, vec!["start".to_string()]);
    assert!(game.should_redraw);
    apply_input(&mut game, &story, "back");
    assert_eq!(game.current, "start");
    assert!(game.history.is_empty());
}

#[test]
fn every_choice_in_range_navigates() {
    let targets = ["alley", "sell_moth", "spire", "ghost"];
    for (i, target) in targets.iter().enumerate() {
        let (story, mut game) = fresh();
        apply_input(&mut game, &story, &format!("{}", i + 1));
        assert_eq!(game.current, *target);
        assert_eq!(game.history, vec!["start".to_string()]);
    }
}

#[test]
fn out_of_range_and_junk_leave_current_unchanged() {
    for input in ["0", "5", "abc"] {
        let (story, mut game) = fresh();
        game.mark_rendered();
        apply_input(&mut game, &story, input);
        assert_eq!(game.current, "start");
        assert!(game.history.is_empty());
        assert!(game.should_redraw);
        assert!(game.message.is_some());
    }
}

#[test]
fn range_hint_names_the_choice_count() {
    let (story, mut game) = fresh();
    apply_input(&mut game, &story, "9");
    assert_eq!(
        game.message.as_deref(),
        Some("Invalid choice. Enter a number between 1 and 4.")
    );
}

#[test]
fn junk_input_gets_number_hint() {
    let (story, mut game) = fresh();
    apply_input(&mut game, &story, "abc");
    assert_eq!(
        game.message.as_deref(),
        Some("Invalid input. Enter a number or 'help' for commands.")
    );
}

#[test]
fn help_shows_fixed_text_and_keeps_position() {
    let (story, mut game) = fresh();
    apply_input(&mut game, &story, "2");
    apply_input(&mut game, &story, "help");
    assert_eq!(game.current, "sell_moth");
    assert_eq!(
        game.message.as_deref(),
        Some(
            "Commands: number to choose, or:\n  help      - show this help\n  back      - go to previous scene (if possible)\n  history   - show visited nodes\n  endings   - show unlocked endings\n  quit      - exit the game"
        )
    );
}

#[test]
fn input_is_trimmed_and_lowercased() {
    let (story, mut game) = fresh();
    apply_input(&mut game, &story, "  HeLp  ");
    assert_eq!(
        game.message.as_deref().map(|m| m.starts_with("Commands:")),
        Some(true)
    );
    apply_input(&mut game, &story, " 2 ");
    assert_eq!(game.current, "sell_moth");
}

#[test]
fn empty_input_is_a_no_op() {
    let (story, mut game) = fresh();
    game.mark_rendered();
    apply_input(&mut game, &story, "   ");
    assert!(!game.should_redraw);
    assert!(game.message.is_none());
    assert_eq!(game.current, "start");
    apply_input(&mut game, &story, "");
    assert!(!game.should_redraw);
}

#[test]
fn quit_and_exit_set_the_flag() {
    let (story, mut game) = fresh();
    game.mark_rendered();
    apply_input(&mut game, &story, "quit");
    assert!(game.quit);
    assert!(!game.should_redraw);

    let (story2, mut game2) = fresh();
    apply_input(&mut game2, &story2, "EXIT");
    assert!(game2.quit);
}

#[test]
fn global_commands_do_not_navigate() {
    for input in ["help", "history", "endings", "quit"] {
        let (story, mut game) = fresh();
        apply_input(&mut game, &story, "1");
        let history_before = game.history.clone();
        apply_input(&mut game, &story, input);
        assert_eq!(game.current, "alley");
        assert_eq!(game.history, history_before);
        assert!(game.endings_unlocked.is_empty());
    }
}

#[test]
fn back_on_empty_history_reports() {
    let (story, mut game) = fresh();
    apply_input(&mut game, &story, "back");
    assert_eq!(game.current, "start");
    assert_eq!(game.message.as_deref(), Some("Cannot go back further."));
    assert!(game.should_redraw);
}

#[test]
fn back_pops_one_level_at_a_time() {
    let (story, mut game) = fresh();
    apply_input(&mut game, &story, "2");
    apply_input(&mut game, &story, "2");
    assert_eq!(game.current, "alley");
    assert_eq!(game.history, vec!["start".to_string(), "sell_moth".to_string()]);
    apply_input(&mut game, &story, "back");
    assert_eq!(game.current, "sell_moth");
    assert_eq!(game.history, vec!["start".to_string()]);
    assert_eq!(game.message.as_deref(), Some("Stepped back."));
    apply_input(&mut game, &story, "back");
    assert_eq!(game.current, "start");
    assert!(game.history.is_empty());
}

#[test]
fn history_command_formats_the_path() {
    let (story, mut game) = fresh();
    apply_input(&mut game, &story, "history");
    assert_eq!(game.message.as_deref(), Some("No history yet."));
    apply_input(&mut game, &story, "2");
    apply_input(&mut game, &story, "2");
    apply_input(&mut game, &story, "history");
    assert_eq!(game.message.as_deref(), Some("Path taken: start -> sell_moth"));
}

#[test]
fn reaching_an_ending_unlocks_its_code() {
    let (story, mut game) = fresh();
    apply_input(&mut game, &story, "1");
    apply_input(&mut game, &story, "1");
    assert_eq!(game.current, "free_end");
    assert!(game.ended);
    assert_eq!(game.endings_unlocked, vec!["LIBERATION".to_string()]);
}

#[test]
fn same_ending_by_two_paths_registers_once() {
    let (story, mut game) = fresh();
    // First route: start -> alley -> free_end.
    apply_input(&mut game, &story, "1");
    apply_input(&mut game, &story, "1");
    assert_eq!(game.endings_unlocked, vec!["LIBERATION".to_string()]);
    // Reboot, then the second route: start -> sell_moth -> free_end.
    apply_input(&mut game, &story, "1");
    assert_eq!(game.current, "start");
    apply_input(&mut game, &story, "2");
    apply_input(&mut game, &story, "1");
    assert_eq!(game.current, "free_end");
    assert!(game.ended);
    assert_eq!(game.endings_unlocked, vec!["LIBERATION".to_string()]);
}

#[test]
fn endings_list_is_sorted() {
    let (story, mut game) = fresh();
    // Unlock GHOST first, then LIBERATION.
    apply_input(&mut game, &story, "4");
    apply_input(&mut game, &story, "1");
    assert_eq!(game.endings_unlocked, vec!["GHOST".to_string()]);
    apply_input(&mut game, &story, "1");
    apply_input(&mut game, &story, "1");
    apply_input(&mut game, &story, "1");
    assert_eq!(
        game.endings_unlocked,
        vec!["GHOST".to_string(), "LIBERATION".to_string()]
    );
    apply_input(&mut game, &story, "endings");
    assert_eq!(
        game.message.as_deref(),
        Some("Unlocked endings: GHOST, LIBERATION")
    );
}

#[test]
fn endings_command_with_none_unlocked() {
    let (story, mut game) = fresh();
    apply_input(&mut game, &story, "endings");
    assert_eq!(game.message.as_deref(), Some("No endings unlocked yet."));
}

#[test]
fn ending_menu_reboot_clears_history() {
    let (story, mut game) = fresh();
    apply_input(&mut game, &story, "1");
    apply_input(&mut game, &story, "1");
    assert!(game.ended);
    apply_input(&mut game, &story, "1");
    assert_eq!(game.current, "start");
    assert!(game.history.is_empty());
    assert!(!game.ended);
    assert_eq!(
        game.message.as_deref(),
        Some("SYSTEM REBOOT... Neural link re-established.")
    );
    assert_eq!(game.endings_unlocked, vec!["LIBERATION".to_string()]);
}

#[test]
fn ending_menu_shows_endings_and_quits() {
    let (story, mut game) = fresh();
    apply_input(&mut game, &story, "1");
    apply_input(&mut game, &story, "1");
    apply_input(&mut game, &story, "2");
    assert_eq!(
        game.message.as_deref(),
        Some("Unlocked endings: LIBERATION")
    );
    assert_eq!(game.current, "free_end");
    apply_input(&mut game, &story, "3");
    assert!(game.quit);
}

#[test]
fn ending_menu_rejects_other_input() {
    let (story, mut game) = fresh();
    apply_input(&mut game, &story, "1");
    apply_input(&mut game, &story, "1");
    apply_input(&mut game, &story, "4");
    assert_eq!(game.message.as_deref(), Some("Invalid choice. Enter 1, 2, or 3."));
    assert_eq!(game.current, "free_end");
    assert!(game.ended);
}

#[test]
fn dangling_reference_stalls_and_recovers_via_back() {
    let (story, mut game) = fresh();
    apply_input(&mut game, &story, "3");
    assert_eq!(game.current, "spire");
    // The spire's only choice points at a node the story does not hold:
    // navigation moves there and the session stalls on the broken node.
    apply_input(&mut game, &story, "1");
    assert_eq!(game.current, "missing_node");
    assert!(!game.ended);
    apply_input(&mut game, &story, "1");
    assert_eq!(
        game.message.as_deref(),
        Some("ERROR: Story node 'missing_node' not found!")
    );
    assert_eq!(game.current, "missing_node");
    // `back` is global, so it still works from the broken node.
    apply_input(&mut game, &story, "back");
    assert_eq!(game.current, "spire");
}

#[test]
fn redraw_is_sticky_until_rendered() {
    let (story, mut game) = fresh();
    apply_input(&mut game, &story, "help");
    apply_input(&mut game, &story, "history");
    assert!(game.should_redraw);
    game.mark_rendered();
    assert!(!game.should_redraw);
    assert!(game.message.is_none());
    apply_input(&mut game, &story, "1");
    assert!(game.should_redraw);
}
