//! Converts parsed story documents into the validated story graph, and
//! writes a story back into the flat document shape.

use vstd::prelude::*;
use vstd::string::*;
use crate::story::{
    Choice, ChoiceModel, Ending, EndingModel, LoadError, NodeModel, Story, StoryModel,
    StoryNode, has_duplicate_id, has_ending_with_choices,
};
use crate::story_data::{ChoiceData, EndingData, StoryData, StoryFlowData, StoryNodeData};
use crate::text::{contains_seq, str_contains, str_eq};

verus! {

/// Key/value view of an art table.
pub open spec fn art_model(v: Seq<(String, String)>) -> Seq<(Seq<char>, Seq<char>)> {
    Seq::new(v.len(), |i: int| (v[i].0@, v[i].1@))
}

/// The first value bound to `key` in the association list, if any.
pub open spec fn assoc_lookup(
    pairs: Seq<(Seq<char>, Seq<char>)>,
    key: Seq<char>,
) -> Option<Seq<char>>
    decreases pairs.len(),
{
    if pairs.len() == 0 {
        None
    } else if pairs[0].0 == key {
        Some(pairs[0].1)
    } else {
        assoc_lookup(pairs.drop_first(), key)
    }
}

/// A keyless prefix does not affect the lookup's outcome.
proof fn lemma_assoc_lookup_skip(pairs: Seq<(Seq<char>, Seq<char>)>, key: Seq<char>, i: int)
    requires
        0 <= i <= pairs.len(),
        forall|j: int| 0 <= j < i ==> (#[trigger] pairs[j]).0 != key,
    ensures
        assoc_lookup(pairs, key) == assoc_lookup(pairs.skip(i), key),
    decreases i,
{
    if i > 0 {
        lemma_assoc_lookup_skip(pairs.drop_first(), key, i - 1);
        assert(pairs.drop_first().skip(i - 1) =~= pairs.skip(i));
    } else {
        assert(pairs.skip(0) =~= pairs);
    }
}

/// Resolves an art key against the art table: the value of its first
/// binding, cloned, or nothing when the table has no such key.
pub fn lookup_art(pairs: &Vec<(String, String)>, key: &str) -> (r: Option<String>)
    ensures
        (match r {
            Some(v) => assoc_lookup(art_model(pairs@), key@) == Some(v@),
            None => assoc_lookup(art_model(pairs@), key@) is None,
        }),
{
    let n = pairs.len();
    let mut i: usize = 0;
    while i < n
        invariant
            n == pairs@.len(),
            0 <= i <= n,
            forall|j: int| 0 <= j < i ==> (#[trigger] art_model(pairs@)[j]).0 != key@,
        decreases n - i,
    {
        if str_eq(pairs[i].0.as_str(), key) {
            proof {
                lemma_assoc_lookup_skip(art_model(pairs@), key@, i as int);
                assert(art_model(pairs@).skip(i as int)[0] == art_model(pairs@)[i as int]);
            }
            return Some(pairs[i].1.clone());
        }
        proof {
            assert(art_model(pairs@)[i as int].0 == pairs@[i as int].0@);
        }
        i += 1;
    }
    proof {
        lemma_assoc_lookup_skip(art_model(pairs@), key@, n as int);
        assert(art_model(pairs@).skip(n as int) =~= Seq::<(Seq<char>, Seq<char>)>::empty());
    }
    None
}

/// The node a keyed document record converts to: the key is the node's
/// identity, and the art key is resolved against the art table.
pub open spec fn node_data_model(
    id: Seq<char>,
    d: StoryNodeData,
    art: Seq<(Seq<char>, Seq<char>)>,
) -> NodeModel {
    NodeModel {
        id: id,
        title: d.title@,
        ascii: match d.ascii_art {
            Some(k) => assoc_lookup(art, k@),
            None => None,
        },
        body: d.body@,
        choices: Seq::new(
            d.choices@.len(),
            |i: int| ChoiceModel { text: d.choices@[i].text@, next: d.choices@[i].next@ },
        ),
        ending: match d.ending {
            Some(e) => Some(
                EndingModel { code: e.code@, name: e.name@, summary: e.summary@ },
            ),
            None => None,
        },
    }
}

/// Converts one document record into a story node under the given id.
pub fn convert_node(id: String, data: StoryNodeData, ascii_art: &Vec<(String, String)>) -> (r:
    StoryNode)
    ensures
        r@ == node_data_model(id@, data, art_model(ascii_art@)),
{
    let StoryNodeData { id: _, title, ascii_art: art_key, body, choices, ending } = data;
    let ascii = match &art_key {
        Some(k) => lookup_art(ascii_art, k.as_str()),
        None => None,
    };
    let mut out_choices: Vec<Choice> = Vec::new();
    let mut rest = choices;
    while rest.len() > 0
        invariant
            rest@ == data.choices@.skip(out_choices@.len() as int),
            out_choices@.len() <= data.choices@.len(),
            forall|i: int|
                0 <= i < out_choices@.len() ==> #[trigger] out_choices@[i]@
                    == (ChoiceModel {
                    text: data.choices@[i].text@,
                    next: data.choices@[i].next@,
                }),
        decreases rest.len(),
    {
        let ghost k = out_choices@.len() as int;
        let c = rest.remove(0);
        proof {
            assert(c == data.choices@[k]);
            assert(rest@ =~= data.choices@.skip(k + 1));
        }
        out_choices.push(Choice { text: c.text, next: c.next });
    }
    let out_ending = match ending {
        Some(e) => Some(Ending { code: e.code, name: e.name, summary: e.summary }),
        None => None,
    };
    let node = StoryNode {
        id,
        title,
        ascii,
        body,
        choices: out_choices,
        ending: out_ending,
    };
    proof {
        assert(node@.choices =~= node_data_model(id@, data, art_model(ascii_art@)).choices);
        assert(node@ =~= node_data_model(id@, data, art_model(ascii_art@)));
    }
    node
}

/// Key view paired with the record, for a keyed node list.
pub open spec fn entries_model(v: Seq<(String, StoryNodeData)>) -> Seq<
    (Seq<char>, StoryNodeData),
> {
    Seq::new(v.len(), |i: int| (v[i].0@, v[i].1))
}

/// The node models a list of keyed entries converts to.
pub open spec fn converted_model(
    e: Seq<(Seq<char>, StoryNodeData)>,
    art: Seq<(Seq<char>, Seq<char>)>,
) -> Seq<NodeModel> {
    Seq::new(e.len(), |i: int| node_data_model(e[i].0, e[i].1, art))
}

/// Converts every keyed entry into a story node, in order.
fn convert_pairs(pairs: Vec<(String, StoryNodeData)>, ascii_art: &Vec<(String, String)>) -> (r:
    Vec<StoryNode>)
    ensures
        Seq::new(r@.len(), |i: int| r@[i]@) == converted_model(
            entries_model(pairs@),
            art_model(ascii_art@),
        ),
{
    let mut out: Vec<StoryNode> = Vec::new();
    let mut rest = pairs;
    while rest.len() > 0
        invariant
            rest@ == pairs@.skip(out@.len() as int),
            out@.len() <= pairs@.len(),
            forall|i: int|
                0 <= i < out@.len() ==> #[trigger] out@[i]@ == node_data_model(
                    pairs@[i].0@,
                    pairs@[i].1,
                    art_model(ascii_art@),
                ),
        decreases rest.len(),
    {
        let (k, d) = rest.remove(0);
        proof {
            assert((k, d) == pairs@[out@.len() as int]);
            assert(rest@ =~= pairs@.skip(out@.len() as int + 1));
        }
        let node = convert_node(k, d, ascii_art);
        out.push(node);
    }
    proof {
        assert(Seq::new(out@.len(), |i: int| out@[i]@) =~= converted_model(
            entries_model(pairs@),
            art_model(ascii_art@),
        ));
    }
    out
}

/// The entries of the optional shared-node table.
pub open spec fn shared_entries(s: Option<Vec<(String, StoryNodeData)>>) -> Seq<
    (Seq<char>, StoryNodeData),
> {
    match s {
        Some(v) => entries_model(v@),
        None => Seq::empty(),
    }
}

/// The entries of all paths, in path order.
pub open spec fn paths_entries(ps: Seq<(String, Vec<(String, StoryNodeData)>)>) -> Seq<
    (Seq<char>, StoryNodeData),
>
    decreases ps.len(),
{
    if ps.len() == 0 {
        Seq::empty()
    } else {
        entries_model(ps[0].1@) + paths_entries(ps.drop_first())
    }
}

/// Every keyed entry of the organized document, in the order the graph
/// is assembled: the start node under the key "start", then the path
/// nodes, the shared nodes, and the ending nodes.
pub open spec fn flow_entries(flow: StoryFlowData) -> Seq<(Seq<char>, StoryNodeData)> {
    seq![("start"@, flow.start)] + paths_entries(flow.paths@) + shared_entries(
        flow.shared_nodes,
    ) + entries_model(flow.endings@)
}

/// True when some entry carries the key.
pub open spec fn key_in(e: Seq<(Seq<char>, StoryNodeData)>, key: Seq<char>) -> bool {
    exists|i: int| 0 <= i < e.len() && (#[trigger] e[i]).0 == key
}

/// Keeps, for each key, only its last entry, in the order of those last
/// entries: what inserting the entries into a map one by one leaves.
pub open spec fn dedup_keep_last(e: Seq<(Seq<char>, StoryNodeData)>) -> Seq<
    (Seq<char>, StoryNodeData),
>
    decreases e.len(),
{
    if e.len() == 0 {
        Seq::empty()
    } else if key_in(e.drop_first(), e[0].0) {
        dedup_keep_last(e.drop_first())
    } else {
        seq![e[0]] + dedup_keep_last(e.drop_first())
    }
}

/// Deduplication keeps exactly the keys of the input.
pub proof fn lemma_dedup_keys(e: Seq<(Seq<char>, StoryNodeData)>, key: Seq<char>)
    ensures
        key_in(dedup_keep_last(e), key) == key_in(e, key),
    decreases e.len(),
{
    if e.len() > 0 {
        let rest = e.drop_first();
        lemma_dedup_keys(rest, key);
        let d = dedup_keep_last(e);
        if key_in(rest, e[0].0) {
            if key_in(e, key) {
                let w = choose|i: int| 0 <= i < e.len() && (#[trigger] e[i]).0 == key;
                if w == 0 {
                    assert(key_in(rest, e[0].0));
                    let v = choose|i: int|
                        0 <= i < rest.len() && (#[trigger] rest[i]).0 == e[0].0;
                    assert(rest[v].0 == key);
                    assert(key_in(rest, key));
                } else {
                    assert(rest[w - 1].0 == key);
                    assert(key_in(rest, key));
                }
            }
        } else {
            if key_in(e, key) && key != e[0].0 {
                let w = choose|i: int| 0 <= i < e.len() && (#[trigger] e[i]).0 == key;
                assert(w != 0);
                assert(rest[w - 1].0 == key);
                assert(key_in(rest, key));
            }
            if key == e[0].0 {
                assert(d[0].0 == key);
                assert(key_in(d, key));
            }
            if key_in(rest, key) {
                let v = choose|i: int|
                    0 <= i < rest.len() && (#[trigger] rest[i]).0 == key;
                assert(rest[v].0 == key);
                assert(e[v + 1].0 == key);
                assert(key_in(e, key));
                let u = choose|i: int|
                    0 <= i < dedup_keep_last(rest).len() && (#[trigger] dedup_keep_last(
                        rest,
                    )[i]).0 == key;
                assert(d[u + 1].0 == key);
                assert(key_in(d, key));
            }
            if key_in(d, key) {
                let u = choose|i: int| 0 <= i < d.len() && (#[trigger] d[i]).0 == key;
                if u > 0 {
                    assert(dedup_keep_last(rest)[u - 1].0 == key);
                    assert(key_in(dedup_keep_last(rest), key));
                }
            }
        }
    }
}

/// Deduplication leaves each key on exactly one entry.
pub proof fn lemma_dedup_unique(e: Seq<(Seq<char>, StoryNodeData)>)
    ensures
        forall|i: int, j: int|
            0 <= i < j < dedup_keep_last(e).len() ==> (#[trigger] dedup_keep_last(e)[i]).0
                != (#[trigger] dedup_keep_last(e)[j]).0,
    decreases e.len(),
{
    if e.len() > 0 {
        let rest = e.drop_first();
        lemma_dedup_unique(rest);
        let d = dedup_keep_last(e);
        let dr = dedup_keep_last(rest);
        if !key_in(rest, e[0].0) {
            lemma_dedup_keys(rest, e[0].0);
            assert forall|i: int, j: int|
                0 <= i < j < d.len() implies (#[trigger] d[i]).0 != (#[trigger] d[j]).0 by {
                if i == 0 {
                    assert(d[j] == dr[j - 1]);
                    if d[j].0 == e[0].0 {
                        assert(key_in(dr, e[0].0));
                    }
                } else {
                    assert(d[i] == dr[i - 1] && d[j] == dr[j - 1]);
                }
            }
        }
    }
}

/// Moves every entry of `src` onto the end of `dst`, keeping the order.
fn append_entries(dst: &mut Vec<(String, StoryNodeData)>, src: Vec<(String, StoryNodeData)>)
    ensures
        final(dst)@ == old(dst)@ + src@,
{
    let mut rest = src;
    proof {
        assert(dst@ + rest@ =~= old(dst)@ + src@);
    }
    while rest.len() > 0
        invariant
            dst@ + rest@ == old(dst)@ + src@,
        decreases rest.len(),
    {
        let ghost dst0 = dst@;
        let ghost rest0 = rest@;
        let e = rest.remove(0);
        dst.push(e);
        proof {
            assert(dst@ + rest@ =~= dst0 + rest0);
        }
    }
    proof {
        assert(dst@ =~= dst@ + rest@);
    }
}

/// The models of concatenated entry lists concatenate.
proof fn lemma_entries_model_concat(a: Seq<(String, StoryNodeData)>, b: Seq<
    (String, StoryNodeData),
>)
    ensures
        entries_model(a + b) == entries_model(a) + entries_model(b),
{
    assert(entries_model(a + b) =~= entries_model(a) + entries_model(b));
}

/// Flattens the organized document into one keyed entry list, in
/// assembly order: start, paths, shared nodes, endings.
pub fn flatten_flow(flow: StoryFlowData) -> (r: Vec<(String, StoryNodeData)>)
    ensures
        entries_model(r@) == flow_entries(flow),
{
    let StoryFlowData { start, paths, shared_nodes, endings } = flow;
    let mut entries: Vec<(String, StoryNodeData)> = Vec::new();
    entries.push((String::from_str("start"), start));
    proof {
        assert(entries_model(entries@) =~= seq![("start"@, flow.start)]);
    }
    let ghost base = seq![("start"@, flow.start)];
    let mut rest_paths = paths;
    while rest_paths.len() > 0
        invariant
            entries_model(entries@) + paths_entries(rest_paths@) == base + paths_entries(
                flow.paths@,
            ),
        decreases rest_paths.len(),
    {
        let ghost e0 = entries@;
        let ghost rp0 = rest_paths@;
        let p = rest_paths.remove(0);
        append_entries(&mut entries, p.1);
        proof {
            lemma_entries_model_concat(e0, rp0[0].1@);
            assert(paths_entries(rp0) == entries_model(rp0[0].1@) + paths_entries(
                rp0.drop_first(),
            ));
            assert(rest_paths@ =~= rp0.drop_first());
            assert(entries_model(entries@) + paths_entries(rest_paths@) =~= (entries_model(
                e0,
            ) + paths_entries(rp0)));
        }
    }
    proof {
        assert(paths_entries(rest_paths@) =~= Seq::<(Seq<char>, StoryNodeData)>::empty());
        assert(entries_model(entries@) =~= base + paths_entries(flow.paths@));
    }
    match shared_nodes {
        Some(sv) => {
            let ghost e0 = entries@;
            append_entries(&mut entries, sv);
            proof {
                lemma_entries_model_concat(e0, sv@);
            }
        },
        None => {
            proof {
                assert(entries_model(entries@) =~= base + paths_entries(flow.paths@)
                    + shared_entries(flow.shared_nodes));
            }
        },
    }
    let ghost e1 = entries@;
    append_entries(&mut entries, endings);
    proof {
        lemma_entries_model_concat(e1, endings@);
        assert(entries_model(entries@) =~= flow_entries(flow));
    }
    entries
}

/// Drops every entry whose key recurs later, keeping the last entry of
/// each key.
pub fn dedup_entries(entries: Vec<(String, StoryNodeData)>) -> (r: Vec<
    (String, StoryNodeData),
>)
    ensures
        entries_model(r@) == dedup_keep_last(entries_model(entries@)),
{
    let mut out: Vec<(String, StoryNodeData)> = Vec::new();
    let mut rest = entries;
    proof {
        assert(entries_model(out@) =~= Seq::<(Seq<char>, StoryNodeData)>::empty());
    }
    while rest.len() > 0
        invariant
            dedup_keep_last(entries_model(entries@)) == entries_model(out@)
                + dedup_keep_last(entries_model(rest@)),
        decreases rest.len(),
    {
        let ghost out0 = out@;
        let ghost r0 = entries_model(rest@);
        let e = rest.remove(0);
        proof {
            assert(entries_model(rest@) =~= r0.drop_first());
            assert(r0[0] == (e.0@, e.1));
        }
        let mut found = false;
        let n = rest.len();
        let mut j: usize = 0;
        while j < n
            invariant
                n == rest@.len(),
                0 <= j <= n,
                !found ==> forall|t: int|
                    0 <= t < j ==> (#[trigger] entries_model(rest@)[t]).0 != e.0@,
                found ==> key_in(entries_model(rest@), e.0@),
            decreases n - j,
        {
            if !found {
                if str_eq(rest[j].0.as_str(), e.0.as_str()) {
                    proof {
                        assert(entries_model(rest@)[j as int].0 == e.0@);
                    }
                    found = true;
                }
                proof {
                    assert(entries_model(rest@)[j as int].0 == rest@[j as int].0@);
                }
            }
            j += 1;
        }
        if !found {
            out.push(e);
            proof {
                assert(!key_in(entries_model(rest@), e.0@));
                assert(entries_model(out@) =~= entries_model(out0) + seq![r0[0]]);
                assert(dedup_keep_last(r0) == seq![r0[0]] + dedup_keep_last(
                    r0.drop_first(),
                ));
                assert(entries_model(out@) + dedup_keep_last(entries_model(rest@))
                    =~= entries_model(out0) + dedup_keep_last(r0));
            }
        } else {
            proof {
                assert(key_in(r0.drop_first(), r0[0].0));
                assert(dedup_keep_last(r0) == dedup_keep_last(r0.drop_first()));
            }
        }
    }
    proof {
        assert(entries_model(rest@) =~= Seq::<(Seq<char>, StoryNodeData)>::empty());
        assert(entries_model(out@) =~= entries_model(out@) + dedup_keep_last(
            entries_model(rest@),
        ));
    }
    out
}

/// Converts and validates parsed story documents.
pub struct StoryLoader;

impl StoryLoader {
    /// Converts a flat keyed document into a validated story. Each node's
    /// identity is its key in the document; the ending screens and the
    /// start id are validated as `Story::new` does.
    pub fn convert_story_data(data: StoryData, ascii_art: Vec<(String, String)>) -> (r: Result<
        Story,
        LoadError,
    >)
        ensures
            ({
                let m = converted_model(entries_model(data.nodes@), art_model(ascii_art@));
                &&& (r matches Ok(st) ==> st.wf() && st@.nodes == m && st@.start
                    == data.start@)
                &&& (r is Ok <==> !has_duplicate_id(m) && !has_ending_with_choices(m)
                    && (StoryModel { nodes: m, start: data.start@ }).has_node(data.start@))
                &&& (r matches Err(LoadError::DuplicateId(_)) ==> has_duplicate_id(m))
                &&& (r matches Err(LoadError::EndingWithChoices(_)) ==> !has_duplicate_id(m)
                    && has_ending_with_choices(m))
                &&& (r matches Err(LoadError::MissingStart(id)) ==> !has_duplicate_id(m)
                    && !has_ending_with_choices(m) && !(StoryModel {
                    nodes: m,
                    start: data.start@,
                }).has_node(data.start@) && id@ == data.start@)
            }),
    {
        let StoryData { nodes, start } = data;
        let converted = convert_pairs(nodes, &ascii_art);
        Story::new(converted, start)
    }

    /// Converts the organized document into a validated story: the start
    /// node, the path nodes, the shared nodes and the ending nodes are
    /// assembled in that order, a key that recurs keeps only its last
    /// entry, and the result starts at "start". The only way this fails
    /// is a node that carries both an ending and choices.
    pub fn convert_story_flow(flow: StoryFlowData, ascii_art: Vec<(String, String)>) -> (r:
        Result<Story, LoadError>)
        ensures
            ({
                let m = converted_model(
                    dedup_keep_last(flow_entries(flow)),
                    art_model(ascii_art@),
                );
                &&& (r matches Ok(st) ==> st.wf() && st@.nodes == m && st@.start
                    == "start"@)
                &&& (r is Ok <==> !has_ending_with_choices(m))
                &&& (r matches Err(e) ==> e matches LoadError::EndingWithChoices(_))
            }),
    {
        let entries = flatten_flow(flow);
        let deduped = dedup_entries(entries);
        let ghost d = dedup_keep_last(flow_entries(flow));
        let ghost m = converted_model(d, art_model(ascii_art@));
        let converted = convert_pairs(deduped, &ascii_art);
        let start = String::from_str("start");
        proof {
            assert(entries_model(deduped@) == d);
            assert(Seq::new(converted@.len(), |i: int| converted@[i]@) =~= m);
            // Keys are unique after deduplication, and each node's id is
            // its key, so no two converted nodes share an id.
            lemma_dedup_unique(flow_entries(flow));
            assert forall|i: int, j: int|
                0 <= i < j < m.len() implies (#[trigger] m[i]).id != (#[trigger] m[j]).id by {
                assert(m[i].id == d[i].0 && m[j].id == d[j].0);
            }
            assert(!has_duplicate_id(m));
            // The key "start" stands at the head of the assembled entries,
            // so a node with that id survives deduplication.
            assert(flow_entries(flow)[0].0 == "start"@);
            assert(key_in(flow_entries(flow), "start"@));
            lemma_dedup_keys(flow_entries(flow), "start"@);
            let w = choose|i: int| 0 <= i < d.len() && (#[trigger] d[i]).0 == "start"@;
            assert(m[w].id == "start"@);
            assert((StoryModel { nodes: m, start: "start"@ }).has_node("start"@));
        }
        let r = Story::new(converted, start);
        proof {
            if !has_ending_with_choices(m) {
                assert(r is Ok);
            }
        }
        r
    }

    /// Writes the story back into the flat document shape. Each node
    /// stands under its id, and each art block is replaced by the key
    /// the exporter assigns to it.
    pub fn export_story_to_json(story: &Story) -> (r: StoryData)
        requires
            story.wf(),
        ensures
            r.start@ == story@.start,
            r.nodes@.len() == story@.nodes.len(),
            forall|i: int|
                0 <= i < r.nodes@.len() ==> (#[trigger] r.nodes@[i]).0@
                    == story@.nodes[i].id && exported_matches(
                    r.nodes@[i].1,
                    story@.nodes[i],
                ),
    {
        let nodes_ref = story.nodes();
        let n = nodes_ref.len();
        let mut out: Vec<(String, StoryNodeData)> = Vec::new();
        let mut i: usize = 0;
        while i < n
            invariant
                n == story@.nodes.len(),
                nodes_ref@.len() == n,
                forall|j: int|
                    0 <= j < n ==> #[trigger] nodes_ref@[j]@ == story@.nodes[j],
                0 <= i <= n,
                out@.len() == i,
                forall|j: int|
                    0 <= j < i ==> (#[trigger] out@[j]).0@ == story@.nodes[j].id
                        && exported_matches(out@[j].1, story@.nodes[j]),
            decreases n - i,
        {
            let node = &nodes_ref[i];
            let k = node.choices.len();
            let mut cds: Vec<ChoiceData> = Vec::new();
            let mut c: usize = 0;
            while c < k
                invariant
                    k == node.choices@.len(),
                    0 <= c <= k,
                    cds@.len() == c,
                    forall|t: int|
                        0 <= t < c ==> (#[trigger] cds@[t]).text@ == node@.choices[t].text
                            && cds@[t].next@ == node@.choices[t].next,
                decreases k - c,
            {
                cds.push(
                    ChoiceData {
                        text: node.choices[c].text.clone(),
                        next: node.choices[c].next.clone(),
                    },
                );
                c += 1;
            }
            let ascii_key = match &node.ascii {
                Some(a) => Some(export_ascii_key(a.as_str())),
                None => None,
            };
            let ed = match &node.ending {
                Some(e) => Some(
                    EndingData {
                        code: e.code.clone(),
                        name: e.name.clone(),
                        summary: e.summary.clone(),
                    },
                ),
                None => None,
            };
            let nd = StoryNodeData {
                id: node.id.clone(),
                title: node.title.clone(),
                ascii_art: ascii_key,
                body: node.body.clone(),
                choices: cds,
                ending: ed,
            };
            out.push((node.id.clone(), nd));
            i += 1;
        }
        StoryData { nodes: out, start: story.start_id().clone() }
    }
}

/// The art key the exporter assigns to an art block, by its content.
pub open spec fn art_key_of(a: Seq<char>) -> Seq<char> {
    if contains_seq(a, "BACK-ALLEY TERMINAL"@) {
        "terminal"@
    } else if contains_seq(a, "Helix Spire"@) {
        "spire"@
    } else if contains_seq(a, "Rain slicks"@) {
        "alley"@
    } else {
        "unknown"@
    }
}

/// Computes the art key for one art block.
fn export_ascii_key(a: &str) -> (r: String)
    ensures
        r@ == art_key_of(a@),
{
    if str_contains(a, "BACK-ALLEY TERMINAL") {
        String::from_str("terminal")
    } else if str_contains(a, "Helix Spire") {
        String::from_str("spire")
    } else if str_contains(a, "Rain slicks") {
        String::from_str("alley")
    } else {
        String::from_str("unknown")
    }
}

/// True when the record carries the same content as the node, with the
/// node's art block replaced by its assigned key.
pub open spec fn exported_matches(nd: StoryNodeData, n: NodeModel) -> bool {
    &&& nd.id@ == n.id
    &&& nd.title@ == n.title
    &&& nd.body@ == n.body
    &&& (match (nd.ascii_art, n.ascii) {
        (Some(k), Some(a)) => k@ == art_key_of(a),
        (None, None) => true,
        _ => false,
    })
    &&& nd.choices@.len() == n.choices.len()
    &&& forall|i: int|
        0 <= i < n.choices.len() ==> (#[trigger] nd.choices@[i]).text@ == n.choices[i].text
            && nd.choices@[i].next@ == n.choices[i].next
    &&& (match (nd.ending, n.ending) {
        (Some(e), Some(em)) => e.code@ == em.code && e.name@ == em.name && e.summary@
            == em.summary,
        (None, None) => true,
        _ => false,
    })
}

} // verus!
