//! Read-only projection of session plus story into everything the host
//! needs to draw one frame.

use vstd::prelude::*;
use vstd::string::*;
use crate::game::Game;
use crate::story::{Ending, Story};

verus! {

/// One frame's worth of drawable state. When `missing` is set, the
/// current id names no node and the other scene fields are empty.
pub struct RenderModel {
    pub missing: bool,
    pub current: String,
    pub title: String,
    pub body: String,
    pub ascii: Option<String>,
    pub choices: Vec<String>,
    pub ending: Option<Ending>,
    pub message: Option<String>,
    pub endings_count: usize,
    pub should_redraw: bool,
}

/// The three fixed labels of the ending screen's menu, in order.
pub fn ending_menu_labels() -> (r: Vec<String>)
    ensures
        r.deep_view() =~= seq![
            "Reboot from the alley"@,
            "Show unlocked endings"@,
            "Quit"@,
        ],
{
    let mut r: Vec<String> = Vec::new();
    r.push(String::from_str("Reboot from the alley"));
    r.push(String::from_str("Show unlocked endings"));
    r.push(String::from_str("Quit"));
    r
}

/// Projects the session and the story into a drawable snapshot. Reads
/// only; the caller clears the message and the redraw flag afterwards
/// with `Game::mark_rendered`.
pub fn render_snapshot(game: &Game, story: &Story) -> (r: RenderModel)
    requires
        story.wf(),
    ensures
        r.current@ == game@.current,
        (match r.message {
            Some(m) => game@.message == Some(m@),
            None => game@.message is None,
        }),
        r.endings_count == game@.endings.len(),
        r.should_redraw == game@.should_redraw,
        r.missing == !story@.has_node(game@.current),
        !r.missing ==> ({
            let node = story@.node_of(game@.current);
            &&& r.title@ == node.title
            &&& r.body@ == node.body
            &&& (match r.ascii {
                Some(a) => node.ascii == Some(a@),
                None => node.ascii is None,
            })
            &&& r.choices.deep_view() == Seq::new(
                node.choices.len(),
                |i: int| node.choices[i].text,
            )
            &&& (match r.ending {
                Some(e) => node.ending == Some(e@),
                None => node.ending is None,
            })
        }),
        r.missing ==> r.title@.len() == 0 && r.body@.len() == 0 && r.ascii is None
            && r.choices@.len() == 0 && (r.ending is None),
{
    let message = match &game.message {
        Some(m) => Some(m.clone()),
        None => None,
    };
    let endings_count = game.endings_unlocked.len();
    let should_redraw = game.should_redraw;
    let current = game.current.clone();
    match story.get_node(game.current.as_str()) {
        Some(node) => {
            let mut choices: Vec<String> = Vec::new();
            let n = node.choices.len();
            let mut i: usize = 0;
            while i < n
                invariant
                    n == node.choices@.len(),
                    0 <= i <= n,
                    choices@.len() == i,
                    forall|j: int|
                        0 <= j < i ==> choices@[j]@ == node@.choices[j].text,
                decreases n - i,
            {
                choices.push(node.choices[i].text.clone());
                i += 1;
            }
            let ending = match &node.ending {
                Some(e) => Some(
                    Ending {
                        code: e.code.clone(),
                        name: e.name.clone(),
                        summary: e.summary.clone(),
                    },
                ),
                None => None,
            };
            let r = RenderModel {
                missing: false,
                current,
                title: node.title.clone(),
                body: node.body.clone(),
                ascii: match &node.ascii {
                    Some(a) => Some(a.clone()),
                    None => None,
                },
                choices,
                ending,
                message,
                endings_count,
                should_redraw,
            };
            proof {
                assert(r.choices.deep_view() =~= Seq::new(
                    story@.node_of(game@.current).choices.len(),
                    |i: int| story@.node_of(game@.current).choices[i].text,
                ));
            }
            r
        },
        None => RenderModel {
            missing: true,
            current,
            title: String::new(),
            body: String::new(),
            ascii: None,
            choices: Vec::new(),
            ending: None,
            message,
            endings_count,
            should_redraw,
        },
    }
}

} // verus!
