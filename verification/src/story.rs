//! The immutable story graph: nodes, choices, endings, and the store
//! that answers lookups by node id.

use vstd::prelude::*;
use crate::text::str_eq;

verus! {

/// A labeled edge from one node to another, naming the target by id.
pub struct Choice {
    pub text: String,
    pub next: String,
}

/// Spec-level image of a `Choice`.
#[verifier::ext_equal]
pub ghost struct ChoiceModel {
    pub text: Seq<char>,
    pub next: Seq<char>,
}

impl View for Choice {
    type V = ChoiceModel;

    open spec fn view(&self) -> ChoiceModel {
        ChoiceModel { text: self.text@, next: self.next@ }
    }
}

/// A terminal node's metadata; its code is recorded as unlocked once reached.
pub struct Ending {
    pub code: String,
    pub name: String,
    pub summary: String,
}

/// Spec-level image of an `Ending`.
#[verifier::ext_equal]
pub ghost struct EndingModel {
    pub code: Seq<char>,
    pub name: Seq<char>,
    pub summary: Seq<char>,
}

impl View for Ending {
    type V = EndingModel;

    open spec fn view(&self) -> EndingModel {
        EndingModel { code: self.code@, name: self.name@, summary: self.summary@ }
    }
}

/// One unit of narrative content: title and body, then either choices
/// onward or an ending.
pub struct StoryNode {
    pub id: String,
    pub title: String,
    pub ascii: Option<String>,
    pub body: String,
    pub choices: Vec<Choice>,
    pub ending: Option<Ending>,
}

/// Spec-level image of a `StoryNode`.
#[verifier::ext_equal]
pub ghost struct NodeModel {
    pub id: Seq<char>,
    pub title: Seq<char>,
    pub ascii: Option<Seq<char>>,
    pub body: Seq<char>,
    pub choices: Seq<ChoiceModel>,
    pub ending: Option<EndingModel>,
}

impl View for StoryNode {
    type V = NodeModel;

    open spec fn view(&self) -> NodeModel {
        NodeModel {
            id: self.id@,
            title: self.title@,
            ascii: match self.ascii {
                Some(a) => Some(a@),
                None => None,
            },
            body: self.body@,
            choices: Seq::new(
                self.choices@.len(),
                |i: int| self.choices@[i]@,
            ),
            ending: match self.ending {
                Some(e) => Some(e@),
                None => None,
            },
        }
    }
}

/// Spec-level image of a `Story`: the node arena and the start id.
#[verifier::ext_equal]
pub ghost struct StoryModel {
    pub nodes: Seq<NodeModel>,
    pub start: Seq<char>,
}

impl StoryModel {
    /// True when some node carries this id.
    pub open spec fn has_node(self, id: Seq<char>) -> bool {
        exists|i: int| 0 <= i < self.nodes.len() && (#[trigger] self.nodes[i]).id == id
    }

    /// The index of the node with this id.
    pub open spec fn idx_of(self, id: Seq<char>) -> int {
        choose|i: int| 0 <= i < self.nodes.len() && (#[trigger] self.nodes[i]).id == id
    }

    /// The node with this id.
    pub open spec fn node_of(self, id: Seq<char>) -> NodeModel {
        self.nodes[self.idx_of(id)]
    }

    /// Well-formed: node ids are unique, the start id names a node, and a
    /// node with an ending carries no choices.
    pub open spec fn wf(self) -> bool {
        &&& forall|i: int, j: int|
            0 <= i < j < self.nodes.len() ==> (#[trigger] self.nodes[i]).id != (
            #[trigger] self.nodes[j]).id
        &&& self.has_node(self.start)
        &&& forall|i: int|
            0 <= i < self.nodes.len() ==> ((#[trigger] self.nodes[i]).ending is Some
                ==> self.nodes[i].choices.len() == 0)
    }
}

/// The reasons a story fails validation at load time.
pub enum LoadError {
    /// Two nodes carry the same id; the payload names it.
    DuplicateId(String),
    /// A node has both an ending and onward choices; the payload names it.
    EndingWithChoices(String),
    /// No node carries the start id; the payload is that id.
    MissingStart(String),
}

/// True when two nodes of the sequence share an id.
pub open spec fn has_duplicate_id(nodes: Seq<NodeModel>) -> bool {
    exists|i: int, j: int|
        0 <= i < j < nodes.len() && (#[trigger] nodes[i]).id == (#[trigger] nodes[j]).id
}

/// True when some node has both an ending and onward choices.
pub open spec fn has_ending_with_choices(nodes: Seq<NodeModel>) -> bool {
    exists|i: int|
        0 <= i < nodes.len() && (#[trigger] nodes[i]).ending is Some
            && nodes[i].choices.len() > 0
}

/// The immutable story store. Built once by `Story::new`, which validates
/// it; read-only afterwards.
pub struct Story {
    nodes: Vec<StoryNode>,
    start: String,
}

impl View for Story {
    type V = StoryModel;

    closed spec fn view(&self) -> StoryModel {
        StoryModel {
            nodes: Seq::new(self.nodes@.len(), |i: int| self.nodes@[i]@),
            start: self.start@,
        }
    }
}

impl Story {
    /// Well-formed; holds for every value `Story::new` returns.
    pub open spec fn wf(&self) -> bool {
        self@.wf()
    }

    /// The entry node's id.
    pub fn start_id(&self) -> (r: &String)
        ensures
            r@ == self@.start,
    {
        &self.start
    }

    /// The nodes, in the order given at construction.
    pub fn nodes(&self) -> (r: &Vec<StoryNode>)
        ensures
            r@.len() == self@.nodes.len(),
            forall|i: int| 0 <= i < r@.len() ==> r@[i]@ == self@.nodes[i],
    {
        &self.nodes
    }

    /// Looks up the node with the given id, or reports that none carries it.
    pub fn get_node(&self, id: &str) -> (r: Option<&StoryNode>)
        requires
            self.wf(),
        ensures
            r matches Some(n) ==> self@.has_node(id@) && n@ == self@.node_of(id@),
            r is None ==> !self@.has_node(id@),
    {
        let n = self.nodes.len();
        let mut i: usize = 0;
        while i < n
            invariant
                self.wf(),
                n == self@.nodes.len(),
                0 <= i <= n,
                forall|j: int| 0 <= j < i ==> (#[trigger] self@.nodes[j]).id != id@,
            decreases n - i,
        {
            if str_eq(self.nodes[i].id.as_str(), id) {
                proof {
                    assert(self@.nodes[i as int].id == id@);
                    assert(self@.has_node(id@));
                    let w = self@.idx_of(id@);
                    assert(0 <= w < self@.nodes.len() && self@.nodes[w].id == id@);
                    if w < i as int {
                        assert(self@.nodes[w].id != self@.nodes[i as int].id);
                    } else if w > i as int {
                        assert(self@.nodes[i as int].id != self@.nodes[w].id);
                    }
                }
                return Some(&self.nodes[i]);
            }
            i += 1;
        }
        None
    }

    /// Validates and builds a story: node ids must be unique, no node may
    /// have both an ending and choices, and the start id must name a node.
    pub fn new(nodes: Vec<StoryNode>, start: String) -> (r: Result<Story, LoadError>)
        ensures
            r matches Ok(st) ==> {
                &&& st.wf()
                &&& st@.nodes == Seq::new(nodes@.len(), |i: int| nodes@[i]@)
                &&& st@.start == start@
            },
            r is Ok <==> {
                let m = Seq::new(nodes@.len(), |i: int| nodes@[i]@);
                &&& !has_duplicate_id(m)
                &&& !has_ending_with_choices(m)
                &&& StoryModel { nodes: m, start: start@ }.has_node(start@)
            },
            r matches Err(LoadError::DuplicateId(id)) ==> {
                let m = Seq::new(nodes@.len(), |i: int| nodes@[i]@);
                has_duplicate_id(m) && exists|i: int|
                    0 <= i < m.len() && (#[trigger] m[i]).id == id@
            },
            r matches Err(LoadError::EndingWithChoices(id)) ==> {
                let m = Seq::new(nodes@.len(), |i: int| nodes@[i]@);
                !has_duplicate_id(m) && has_ending_with_choices(m) && exists|i: int|
                    0 <= i < m.len() && (#[trigger] m[i]).id == id@
            },
            r matches Err(LoadError::MissingStart(id)) ==> {
                let m = Seq::new(nodes@.len(), |i: int| nodes@[i]@);
                !has_duplicate_id(m) && !has_ending_with_choices(m) && !StoryModel {
                    nodes: m,
                    start: start@,
                }.has_node(start@) && id@ == start@
            },
    {
        let ghost m = Seq::new(nodes@.len(), |i: int| nodes@[i]@);
        let n = nodes.len();
        let mut i: usize = 0;
        while i < n
            invariant
                n == nodes@.len(),
                m == Seq::new(nodes@.len(), |i: int| nodes@[i]@),
                0 <= i <= n,
                forall|p: int, q: int|
                    0 <= p < q < i ==> (#[trigger] m[p]).id != (#[trigger] m[q]).id,
            decreases n - i,
        {
            let mut j: usize = 0;
            while j < i
                invariant
                    n == nodes@.len(),
                    m == Seq::new(nodes@.len(), |i: int| nodes@[i]@),
                    0 <= j <= i < n,
                    forall|q: int| 0 <= q < j ==> (#[trigger] m[q]).id != m[i as int].id,
                decreases i - j,
            {
                if str_eq(nodes[j].id.as_str(), nodes[i].id.as_str()) {
                    proof {
                        assert(m[j as int].id == m[i as int].id);
                        assert(has_duplicate_id(m));
                    }
                    return Err(LoadError::DuplicateId(nodes[i].id.clone()));
                }
                j += 1;
            }
            i += 1;
        }
        let mut i: usize = 0;
        while i < n
            invariant
                n == nodes@.len(),
                m == Seq::new(nodes@.len(), |i: int| nodes@[i]@),
                0 <= i <= n,
                !has_duplicate_id(m),
                forall|p: int|
                    0 <= p < i ==> ((#[trigger] m[p]).ending is Some ==> m[p].choices.len()
                        == 0),
            decreases n - i,
        {
            if nodes[i].ending.is_some() && nodes[i].choices.len() > 0 {
                proof {
                    assert(m[i as int].ending is Some && m[i as int].choices.len() > 0);
                    assert(has_ending_with_choices(m));
                }
                return Err(LoadError::EndingWithChoices(nodes[i].id.clone()));
            }
            i += 1;
        }
        let mut found = false;
        let mut i: usize = 0;
        while i < n
            invariant
                n == nodes@.len(),
                m == Seq::new(nodes@.len(), |i: int| nodes@[i]@),
                0 <= i <= n,
                !has_duplicate_id(m),
                !has_ending_with_choices(m),
                !found ==> forall|j: int| 0 <= j < i ==> (#[trigger] m[j]).id != start@,
                found ==> exists|j: int| 0 <= j < n && (#[trigger] m[j]).id == start@,
            decreases n - i,
        {
            if str_eq(nodes[i].id.as_str(), start.as_str()) {
                proof {
                    assert(m[i as int].id == start@);
                }
                found = true;
            }
            i += 1;
        }
        if !found {
            return Err(LoadError::MissingStart(start));
        }
        let st = Story { nodes, start };
        proof {
            assert(st@.nodes =~= m);
            assert(st@.wf());
        }
        Ok(st)
    }
}

} // verus!
