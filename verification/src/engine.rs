//! The command interpreter: fixed message texts, the specification-level
//! transition function, and the executable `apply_input` that is proved
//! to implement it.

use vstd::prelude::*;
use vstd::string::*;
use crate::game::{Game, SessionModel};
use crate::story::{Story, StoryModel};
use crate::text::{
    str_eq, parse_dec, parsed_dec, dec_str, usize_to_string, join_with, join_strings,
    sorted_insert, insert_code, normal_of, normalize_line, lemma_sorted_insert_props,
};

verus! {

/// The welcome message a fresh session carries.
pub open spec fn welcome_text() -> Seq<char> {
    "Neural link established. Type 'help' for command protocols."@
}

/// Builds the welcome message.
pub fn welcome_message() -> (r: String)
    ensures
        r@ == welcome_text(),
{
    String::from_str("Neural link established. Type 'help' for command protocols.")
}

/// The fixed help text the `help` command shows.
pub open spec fn help_text() -> Seq<char> {
    "Commands: number to choose, or:\n  help      - show this help\n  back      - go to previous scene (if possible)\n  history   - show visited nodes\n  endings   - show unlocked endings\n  quit      - exit the game"@
}

/// Builds the help message.
pub fn help_message() -> (r: String)
    ensures
        r@ == help_text(),
{
    String::from_str(
        "Commands: number to choose, or:\n  help      - show this help\n  back      - go to previous scene (if possible)\n  history   - show visited nodes\n  endings   - show unlocked endings\n  quit      - exit the game",
    )
}

/// What the `history` command reports: the visited node ids joined with
/// an arrow, or a fixed note when none were visited yet.
pub open spec fn history_text(h: Seq<Seq<char>>) -> Seq<char> {
    if h.len() == 0 {
        "No history yet."@
    } else {
        "Path taken: "@ + join_with(h, " -> "@)
    }
}

/// Builds the `history` report.
pub fn history_message(h: &Vec<String>) -> (r: String)
    ensures
        r@ == history_text(h.deep_view()),
{
    if h.len() == 0 {
        String::from_str("No history yet.")
    } else {
        let mut r = String::from_str("Path taken: ");
        let joined = join_strings(h, " -> ");
        r.append(joined.as_str());
        r
    }
}

/// What the `endings` command reports: the sorted unlocked codes joined
/// with a comma, or a fixed note when none are unlocked yet.
pub open spec fn endings_text(codes: Seq<Seq<char>>) -> Seq<char> {
    if codes.len() == 0 {
        "No endings unlocked yet."@
    } else {
        "Unlocked endings: "@ + join_with(codes, ", "@)
    }
}

/// Builds the `endings` report.
pub fn endings_message(codes: &Vec<String>) -> (r: String)
    ensures
        r@ == endings_text(codes.deep_view()),
{
    if codes.len() == 0 {
        String::from_str("No endings unlocked yet.")
    } else {
        let mut r = String::from_str("Unlocked endings: ");
        let joined = join_strings(codes, ", ");
        r.append(joined.as_str());
        r
    }
}

/// The confirmation after stepping back.
pub open spec fn back_text() -> Seq<char> {
    "Stepped back."@
}

/// Builds the step-back confirmation.
pub fn back_message() -> (r: String)
    ensures
        r@ == back_text(),
{
    String::from_str("Stepped back.")
}

/// The report when there is no previous scene to return to.
pub open spec fn no_back_text() -> Seq<char> {
    "Cannot go back further."@
}

/// Builds the no-previous-scene report.
pub fn no_back_message() -> (r: String)
    ensures
        r@ == no_back_text(),
{
    String::from_str("Cannot go back further.")
}

/// The confirmation after rebooting from an ending screen.
pub open spec fn reboot_text() -> Seq<char> {
    "SYSTEM REBOOT... Neural link re-established."@
}

/// Builds the reboot confirmation.
pub fn reboot_message() -> (r: String)
    ensures
        r@ == reboot_text(),
{
    String::from_str("SYSTEM REBOOT... Neural link re-established.")
}

/// The hint shown for an unrecognized input on an ending screen.
pub open spec fn menu_hint_text() -> Seq<char> {
    "Invalid choice. Enter 1, 2, or 3."@
}

/// Builds the ending-menu hint.
pub fn menu_hint_message() -> (r: String)
    ensures
        r@ == menu_hint_text(),
{
    String::from_str("Invalid choice. Enter 1, 2, or 3.")
}

/// The hint shown when a number is outside the node's choice range.
pub open spec fn range_hint_text(k: int) -> Seq<char> {
    "Invalid choice. Enter a number between 1 and "@ + dec_str(k) + "."@
}

/// Builds the out-of-range hint for a node with `k` choices.
pub fn range_hint_message(k: usize) -> (r: String)
    ensures
        r@ == range_hint_text(k as int),
{
    let mut r = String::from_str("Invalid choice. Enter a number between 1 and ");
    let num = usize_to_string(k);
    r.append(num.as_str());
    r.append(".");
    r
}

/// The hint shown when the input is not a number at all.
pub open spec fn number_hint_text() -> Seq<char> {
    "Invalid input. Enter a number or 'help' for commands."@
}

/// Builds the not-a-number hint.
pub fn number_hint_message() -> (r: String)
    ensures
        r@ == number_hint_text(),
{
    String::from_str("Invalid input. Enter a number or 'help' for commands.")
}

/// The error naming a node id that the story does not hold.
pub open spec fn missing_node_text(id: Seq<char>) -> Seq<char> {
    "ERROR: Story node '"@ + id + "' not found!"@
}

/// Builds the missing-node error for the given id.
pub fn missing_node_message(id: &str) -> (r: String)
    ensures
        r@ == missing_node_text(id@),
{
    let mut r = String::from_str("ERROR: Story node '");
    r.append(id);
    r.append("' not found!");
    r
}

/// The `back` command: return to the most recently visited node and pop
/// it off the history, or report that there is nothing to return to.
pub open spec fn step_back(s: SessionModel) -> SessionModel {
    if s.history.len() > 0 {
        SessionModel {
            current: s.history.last(),
            history: s.history.drop_last(),
            ended: false,
            message: Some(back_text()),
            should_redraw: true,
            ..s
        }
    } else {
        SessionModel { message: Some(no_back_text()), should_redraw: true, ..s }
    }
}

/// The ending screen accepts exactly three choices: reboot to the start,
/// show the unlocked endings, or quit.
pub open spec fn step_ending_menu(st: StoryModel, s: SessionModel, cmd: Seq<char>) -> SessionModel {
    if cmd == "1"@ {
        SessionModel {
            current: st.start,
            history: Seq::<Seq<char>>::empty(),
            ended: false,
            message: Some(reboot_text()),
            should_redraw: true,
            ..s
        }
    } else if cmd == "2"@ {
        SessionModel { message: Some(endings_text(s.endings)), should_redraw: true, ..s }
    } else if cmd == "3"@ {
        SessionModel { quit: true, ..s }
    } else {
        SessionModel { message: Some(menu_hint_text()), should_redraw: true, ..s }
    }
}

/// Normal navigation: a number within the choice range moves along that
/// choice, pushing the departed node onto the history and, when the
/// target node carries an ending, marking the session ended and
/// recording the ending's code. Anything else is refused with a hint.
pub open spec fn step_navigate(st: StoryModel, s: SessionModel, cmd: Seq<char>) -> SessionModel {
    let node = st.node_of(s.current);
    match parsed_dec(cmd) {
        Some(n) => if 1 <= n && n <= node.choices.len() {
            let next = node.choices[n - 1].next;
            let moved = SessionModel {
                current: next,
                history: s.history.push(s.current),
                should_redraw: true,
                ..s
            };
            if st.has_node(next) {
                match st.node_of(next).ending {
                    Some(e) => SessionModel {
                        ended: true,
                        endings: sorted_insert(s.endings, e.code),
                        ..moved
                    },
                    None => SessionModel { ended: false, ..moved },
                }
            } else {
                SessionModel { ended: false, ..moved }
            }
        } else {
            SessionModel {
                message: Some(range_hint_text(node.choices.len() as int)),
                should_redraw: true,
                ..s
            }
        },
        None => SessionModel {
            message: Some(number_hint_text()),
            should_redraw: true,
            ..s
        },
    }
}

/// One step of the interpreter on an already-normalized command line:
/// an empty line does nothing; global commands come first, whatever the
/// node; a missing current node is reported and nothing else changes;
/// an ending node shows its menu; any other node navigates by number.
pub open spec fn step(st: StoryModel, s: SessionModel, cmd: Seq<char>) -> SessionModel {
    if cmd.len() == 0 {
        s
    } else if cmd == "help"@ {
        SessionModel { message: Some(help_text()), should_redraw: true, ..s }
    } else if cmd == "quit"@ || cmd == "exit"@ {
        SessionModel { quit: true, ..s }
    } else if cmd == "history"@ {
        SessionModel { message: Some(history_text(s.history)), should_redraw: true, ..s }
    } else if cmd == "endings"@ {
        SessionModel { message: Some(endings_text(s.endings)), should_redraw: true, ..s }
    } else if cmd == "back"@ {
        step_back(s)
    } else if !st.has_node(s.current) {
        SessionModel {
            message: Some(missing_node_text(s.current)),
            should_redraw: true,
            ..s
        }
    } else if st.node_of(s.current).ending is Some {
        step_ending_menu(st, s, cmd)
    } else {
        step_navigate(st, s, cmd)
    }
}

/// Applies one already-normalized command line to the session; the new
/// session state is exactly what the `step` transition function says.
pub fn apply_normalized(game: &mut Game, story: &Story, cmd: &str)
    requires
        old(game).wf(),
        story.wf(),
    ensures
        final(game).wf(),
        final(game)@ == step(story@, old(game)@, cmd@),
{
    let ghost s0 = old(game)@;
    if cmd.is_empty() {
        return;
    }
    if str_eq(cmd, "help") {
        let m = help_message();
        game.message = Some(m);
        game.should_redraw = true;
        return;
    }
    if str_eq(cmd, "quit") || str_eq(cmd, "exit") {
        game.quit = true;
        return;
    }
    if str_eq(cmd, "history") {
        let m = history_message(&game.history);
        game.message = Some(m);
        game.should_redraw = true;
        return;
    }
    if str_eq(cmd, "endings") {
        let m = endings_message(&game.endings_unlocked);
        game.message = Some(m);
        game.should_redraw = true;
        return;
    }
    if str_eq(cmd, "back") {
        if game.history.len() > 0 {
            let prev = game.history.pop().unwrap();
            game.current = prev;
            game.ended = false;
            let m = back_message();
            game.message = Some(m);
            game.should_redraw = true;
            proof {
                assert(game.history.deep_view() =~= s0.history.drop_last());
                assert(game@ =~= step(story@, s0, cmd@));
            }
        } else {
            let m = no_back_message();
            game.message = Some(m);
            game.should_redraw = true;
        }
        return;
    }
    let node = match story.get_node(game.current.as_str()) {
        Some(n) => n,
        None => {
            let m = missing_node_message(game.current.as_str());
            game.message = Some(m);
            game.should_redraw = true;
            return;
        },
    };
    if node.ending.is_some() {
        // The ending screen's own menu.
        if str_eq(cmd, "1") {
            game.current = story.start_id().clone();
            game.history.clear();
            game.ended = false;
            let m = reboot_message();
            game.message = Some(m);
            game.should_redraw = true;
            proof {
                assert(game.history.deep_view() =~= Seq::<Seq<char>>::empty());
                assert(game@ =~= step(story@, s0, cmd@));
            }
        } else if str_eq(cmd, "2") {
            let m = endings_message(&game.endings_unlocked);
            game.message = Some(m);
            game.should_redraw = true;
        } else if str_eq(cmd, "3") {
            game.quit = true;
        } else {
            let m = menu_hint_message();
            game.message = Some(m);
            game.should_redraw = true;
        }
        return;
    }
    let k = node.choices.len();
    match parse_dec(cmd) {
        Some(n) => {
            if 1 <= n && n <= k {
                let next = node.choices[n - 1].next.clone();
                let departed = game.current.clone();
                game.history.push(departed);
                game.current = next;
                game.should_redraw = true;
                proof {
                    assert(game.history.deep_view() =~= s0.history.push(s0.current));
                }
                match story.get_node(game.current.as_str()) {
                    Some(target) => {
                        match &target.ending {
                            Some(e) => {
                                game.ended = true;
                                let code = e.code.clone();
                                proof {
                                    lemma_sorted_insert_props(s0.endings, code@);
                                }
                                insert_code(&mut game.endings_unlocked, code);
                                proof {
                                    assert(game@ =~= step(story@, s0, cmd@));
                                }
                            },
                            None => {
                                game.ended = false;
                                proof {
                                    assert(game@ =~= step(story@, s0, cmd@));
                                }
                            },
                        }
                    },
                    None => {
                        game.ended = false;
                        proof {
                            assert(game@ =~= step(story@, s0, cmd@));
                        }
                    },
                }
            } else {
                let m = range_hint_message(k);
                game.message = Some(m);
                game.should_redraw = true;
            }
        },
        None => {
            let m = number_hint_message();
            game.message = Some(m);
            game.should_redraw = true;
        },
    }
}

/// Applies one raw input line: normalizes it (surrounding whitespace
/// trimmed, folded to lowercase), then steps the session by the
/// normalized command.
pub fn apply_input(game: &mut Game, story: &Story, line: &str)
    requires
        old(game).wf(),
        story.wf(),
    ensures
        final(game).wf(),
        final(game)@ == step(story@, old(game)@, normal_of(line@)),
{
    let cmd = normalize_line(line);
    apply_normalized(game, story, cmd.as_str());
}

} // verus!
