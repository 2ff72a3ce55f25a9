//! Mutable per-playthrough session state: position, history, unlocked
//! endings, the one-shot message and the redraw flag.

use vstd::prelude::*;
use crate::story::Story;
use crate::text::strict_sorted;

verus! {

/// Spec-level image of a session.
#[verifier::ext_equal]
pub ghost struct SessionModel {
    pub current: Seq<char>,
    pub history: Seq<Seq<char>>,
    pub endings: Seq<Seq<char>>,
    pub message: Option<Seq<char>>,
    pub should_redraw: bool,
    pub ended: bool,
    pub quit: bool,
}

impl SessionModel {
    /// Well-formed: the unlocked ending codes are strictly sorted, so each
    /// code is recorded at most once.
    pub open spec fn wf(self) -> bool {
        strict_sorted(self.endings)
    }
}

/// One playthrough's mutable state. `current` is the id of the node the
/// player stands on; `history` is the stack of previously visited node
/// ids; `endings_unlocked` holds the ending codes reached so far, in
/// sorted order; `message` is shown once and then cleared by the host.
pub struct Game {
    pub current: String,
    pub should_redraw: bool,
    pub ended: bool,
    pub quit: bool,
    pub history: Vec<String>,
    pub message: Option<String>,
    pub endings_unlocked: Vec<String>,
}

impl View for Game {
    type V = SessionModel;

    open spec fn view(&self) -> SessionModel {
        SessionModel {
            current: self.current@,
            history: self.history.deep_view(),
            endings: self.endings_unlocked.deep_view(),
            message: match self.message {
                Some(m) => Some(m@),
                None => None,
            },
            should_redraw: self.should_redraw,
            ended: self.ended,
            quit: self.quit,
        }
    }
}

impl Game {
    /// Well-formed; established by `Game::new` and kept by every
    /// operation of the engine.
    pub open spec fn wf(&self) -> bool {
        self@.wf()
    }

    /// A fresh session standing on the story's start node, with empty
    /// history, no endings unlocked, and the welcome message pending.
    pub fn new(story: &Story) -> (r: Game)
        ensures
            r.wf(),
            r@ == (SessionModel {
                current: story@.start,
                history: Seq::<Seq<char>>::empty(),
                endings: Seq::<Seq<char>>::empty(),
                message: Some(crate::engine::welcome_text()),
                should_redraw: true,
                ended: false,
                quit: false,
            }),
    {
        let g = Game {
            current: story.start_id().clone(),
            should_redraw: true,
            ended: false,
            quit: false,
            history: Vec::new(),
            message: Some(crate::engine::welcome_message()),
            endings_unlocked: Vec::new(),
        };
        proof {
            assert(g.history.deep_view() =~= Seq::<Seq<char>>::empty());
            assert(g.endings_unlocked.deep_view() =~= Seq::<Seq<char>>::empty());
        }
        g
    }

    /// The host consumed the rendered state: the one-shot message and the
    /// redraw flag are cleared; everything else stays.
    pub fn mark_rendered(&mut self)
        ensures
            final(self)@ == (SessionModel {
                message: None,
                should_redraw: false,
                ..old(self)@
            }),
    {
        self.message = None;
        self.should_redraw = false;
    }
}

} // verus!
