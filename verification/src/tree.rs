//! What a whole search prints, stated over a model of the directory tree.

use vstd::prelude::*;
use crate::report::{file_reports, is_reported, lemma_reported_indices, reported_indices};

verus! {

/// A directory entry as a search sees it.
pub enum Node {
    /// A regular file, with the text of its path and its lines. A file
    /// that cannot be opened has no lines; a line that cannot be read as
    /// text is `None`.
    File { path: Seq<char>, lines: Option<Seq<Option<Seq<char>>>> },
    /// A directory with its entries in the order of its listing. A
    /// directory that cannot be listed has no entries.
    Directory { entries: Option<Seq<Node>> },
    /// Anything else.
    Other,
}

/// The report lines that a depth-first search of `node` prints, in order.
pub open spec fn tree_output(node: Node, pattern: Seq<char>) -> Seq<Seq<char>>
    decreases node, 0nat,
{
    match node {
        Node::File { path, lines: Some(lines) } => file_reports(path, lines, pattern),
        Node::Directory { entries: Some(entries) } => forest_output(entries, pattern, 0),
        _ => Seq::empty(),
    }
}

/// The report lines for the nodes of `nodes` from index `from` on, one
/// node after the other.
pub open spec fn forest_output(nodes: Seq<Node>, pattern: Seq<char>, from: nat) -> Seq<Seq<char>>
    decreases nodes, nodes.len() - from,
{
    if from >= nodes.len() {
        Seq::empty()
    } else {
        tree_output(nodes[from as int], pattern) + forest_output(nodes, pattern, from + 1)
    }
}

/// Whether some line of some file in the tree under `node` contains the
/// pattern.
pub open spec fn tree_has_match(node: Node, pattern: Seq<char>) -> bool
    decreases node, 0nat,
{
    match node {
        Node::File { path, lines: Some(lines) } => exists|i: int|
            0 <= i < lines.len() && is_reported(#[trigger] lines[i], pattern),
        Node::Directory { entries: Some(entries) } => forest_has_match(entries, pattern, 0),
        _ => false,
    }
}

/// Whether some line of some file in the trees of `nodes`, from index
/// `from` on, contains the pattern.
pub open spec fn forest_has_match(nodes: Seq<Node>, pattern: Seq<char>, from: nat) -> bool
    decreases nodes, nodes.len() - from,
{
    from < nodes.len() && (tree_has_match(nodes[from as int], pattern) || forest_has_match(
        nodes,
        pattern,
        from + 1,
    ))
}

/// A search prints nothing exactly if the pattern occurs in no line of any
/// file in the tree.
pub proof fn lemma_output_empty_iff_no_match(node: Node, pattern: Seq<char>)
    ensures
        tree_output(node, pattern).len() == 0 <==> !tree_has_match(node, pattern),
    decreases node, 0nat,
{
    match node {
        Node::File { path, lines: Some(lines) } => {
            let indices = reported_indices(lines, pattern, lines.len());
            lemma_reported_indices(lines, pattern, lines.len());
            if indices.len() > 0 {
                assert(is_reported(lines[indices[0]], pattern));
            }
            if tree_has_match(node, pattern) {
                let i = choose|i: int|
                    0 <= i < lines.len() && is_reported(#[trigger] lines[i], pattern);
                assert(indices.contains(i));
            }
        },
        Node::Directory { entries: Some(entries) } => {
            lemma_forest_output_empty_iff_no_match(entries, pattern, 0);
        },
        _ => {},
    }
}

/// The same for a run of trees.
pub proof fn lemma_forest_output_empty_iff_no_match(nodes: Seq<Node>, pattern: Seq<char>, from: nat)
    ensures
        forest_output(nodes, pattern, from).len() == 0 <==> !forest_has_match(nodes, pattern, from),
    decreases nodes, nodes.len() - from,
{
    if from < nodes.len() {
        lemma_output_empty_iff_no_match(nodes[from as int], pattern);
        lemma_forest_output_empty_iff_no_match(nodes, pattern, from + 1);
    }
}

/// The number of nodes in the tree under `node`, itself included.
pub open spec fn node_count(node: Node) -> nat
    decreases node, 0nat,
{
    match node {
        Node::Directory { entries: Some(entries) } => 1 + forest_count(entries, 0),
        _ => 1,
    }
}

/// The number of nodes in the trees of `nodes` from index `from` on.
pub open spec fn forest_count(nodes: Seq<Node>, from: nat) -> nat
    decreases nodes, nodes.len() - from,
{
    if from >= nodes.len() {
        0
    } else {
        node_count(nodes[from as int]) + forest_count(nodes, from + 1)
    }
}

/// What the visit of one node prints by itself: the report lines of a
/// file, and nothing for any other node.
pub open spec fn visit_output(node: Node, pattern: Seq<char>) -> Seq<Seq<char>> {
    match node {
        Node::File { path, lines: Some(lines) } => file_reports(path, lines, pattern),
        _ => Seq::empty(),
    }
}

/// What is pending after the first of `pending` was visited: the entries
/// of a directory go in front of the rest.
pub open spec fn after_visit(pending: Seq<Node>) -> Seq<Node>
    recommends
        pending.len() > 0,
{
    match pending[0] {
        Node::Directory { entries: Some(entries) } => entries + pending.skip(1),
        _ => pending.skip(1),
    }
}

/// What a traversal by work-list prints in at most `steps` visits.
pub open spec fn run_output(pending: Seq<Node>, pattern: Seq<char>, steps: nat) -> Seq<Seq<char>>
    decreases steps,
{
    if steps == 0 || pending.len() == 0 {
        Seq::empty()
    } else {
        visit_output(pending[0], pattern) + run_output(
            after_visit(pending),
            pattern,
            (steps - 1) as nat,
        )
    }
}

/// The output of two runs of nodes, one behind the other, is the output
/// of the first followed by that of the second.
pub proof fn lemma_forest_output_concat(
    first: Seq<Node>,
    second: Seq<Node>,
    pattern: Seq<char>,
    from: nat,
)
    requires
        from <= first.len(),
    ensures
        forest_output(first + second, pattern, from) == forest_output(first, pattern, from)
            + forest_output(second, pattern, 0),
    decreases first.len() + second.len() - from,
{
    let both = first + second;
    if from < first.len() {
        lemma_forest_output_concat(first, second, pattern, from + 1);
        assert(both[from as int] == first[from as int]);
        assert(forest_output(both, pattern, from) =~= forest_output(first, pattern, from)
            + forest_output(second, pattern, 0));
    } else {
        lemma_forest_output_shift(first, second, pattern, 0);
        assert(forest_output(first, pattern, from) =~= Seq::<Seq<char>>::empty());
        assert(forest_output(both, pattern, from) =~= forest_output(first, pattern, from)
            + forest_output(second, pattern, 0));
    }
}

/// Nodes put in front do not change the output of those behind them.
proof fn lemma_forest_output_shift(
    first: Seq<Node>,
    second: Seq<Node>,
    pattern: Seq<char>,
    from: nat,
)
    requires
        from <= second.len(),
    ensures
        forest_output(first + second, pattern, first.len() + from) == forest_output(
            second,
            pattern,
            from,
        ),
    decreases second.len() - from,
{
    let both = first + second;
    if from < second.len() {
        lemma_forest_output_shift(first, second, pattern, from + 1);
        assert(both[(first.len() + from) as int] == second[from as int]);
    }
}

/// The count of two runs of nodes, one behind the other, is the sum of
/// their counts.
pub proof fn lemma_forest_count_concat(first: Seq<Node>, second: Seq<Node>, from: nat)
    requires
        from <= first.len(),
    ensures
        forest_count(first + second, from) == forest_count(first, from) + forest_count(second, 0),
    decreases first.len() + second.len() - from,
{
    let both = first + second;
    if from < first.len() {
        lemma_forest_count_concat(first, second, from + 1);
        assert(both[from as int] == first[from as int]);
    } else {
        lemma_forest_count_shift(first, second, 0);
    }
}

/// Nodes put in front do not change the count of those behind them.
proof fn lemma_forest_count_shift(first: Seq<Node>, second: Seq<Node>, from: nat)
    requires
        from <= second.len(),
    ensures
        forest_count(first + second, first.len() + from) == forest_count(second, from),
    decreases second.len() - from,
{
    let both = first + second;
    if from < second.len() {
        lemma_forest_count_shift(first, second, from + 1);
        assert(both[(first.len() + from) as int] == second[from as int]);
    }
}

/// One visit prints what the first pending node prints by itself, and
/// leaves pending what prints the rest.
pub proof fn lemma_visit_output(pending: Seq<Node>, pattern: Seq<char>)
    requires
        pending.len() > 0,
    ensures
        forest_output(pending, pattern, 0) == visit_output(pending[0], pattern) + forest_output(
            after_visit(pending),
            pattern,
            0,
        ),
{
    let rest = pending.skip(1);
    assert(pending =~= seq![pending[0]] + rest);
    lemma_forest_output_shift(seq![pending[0]], rest, pattern, 0);
    assert(forest_output(pending, pattern, 1) == forest_output(rest, pattern, 0));
    assert(forest_output(pending, pattern, 0) == tree_output(pending[0], pattern) + forest_output(
        pending,
        pattern,
        1,
    ));
    match pending[0] {
        Node::Directory { entries: Some(entries) } => {
            lemma_forest_output_concat(entries, rest, pattern, 0);
            assert(forest_output(pending, pattern, 0) =~= visit_output(pending[0], pattern)
                + forest_output(after_visit(pending), pattern, 0));
        },
        _ => {
            assert(forest_output(pending, pattern, 0) =~= visit_output(pending[0], pattern)
                + forest_output(after_visit(pending), pattern, 0));
        },
    }
}

/// One visit leaves fewer nodes to visit, so a traversal of a tree ends.
pub proof fn lemma_visit_count(pending: Seq<Node>)
    requires
        pending.len() > 0,
    ensures
        forest_count(after_visit(pending), 0) + 1 == forest_count(pending, 0),
{
    let rest = pending.skip(1);
    assert(pending =~= seq![pending[0]] + rest);
    lemma_forest_count_shift(seq![pending[0]], rest, 0);
    assert(forest_count(pending, 1) == forest_count(rest, 0));
    assert(forest_count(pending, 0) == node_count(pending[0]) + forest_count(pending, 1));
    match pending[0] {
        Node::Directory { entries: Some(entries) } => {
            lemma_forest_count_concat(entries, rest, 0);
        },
        _ => {},
    }
}

/// A traversal by work-list that is given enough visits prints what the
/// depth-first search of its pending nodes prints.
pub proof fn lemma_run_output(pending: Seq<Node>, pattern: Seq<char>, steps: nat)
    requires
        forest_count(pending, 0) <= steps,
    ensures
        run_output(pending, pattern, steps) == forest_output(pending, pattern, 0),
    decreases steps,
{
    if pending.len() > 0 {
        lemma_visit_count(pending);
        lemma_visit_output(pending, pattern);
        lemma_run_output(after_visit(pending), pattern, (steps - 1) as nat);
    }
}

/// A traversal that starts with one node pending and is given enough
/// visits prints the output of that node's tree.
pub proof fn lemma_run_from_root(root: Node, pattern: Seq<char>, steps: nat)
    requires
        node_count(root) <= steps,
    ensures
        run_output(seq![root], pattern, steps) == tree_output(root, pattern),
{
    let pending = seq![root];
    assert(forest_count(pending, 1) == 0);
    assert(forest_output(pending, pattern, 1) =~= Seq::<Seq<char>>::empty());
    assert(forest_output(pending, pattern, 0) =~= tree_output(root, pattern));
    lemma_run_output(pending, pattern, steps);
}

/// Two traversals of the same tree for the same pattern print the same,
/// however many visits each is given beyond those it needs.
pub proof fn lemma_runs_agree(root: Node, pattern: Seq<char>, first_steps: nat, second_steps: nat)
    requires
        node_count(root) <= first_steps,
        node_count(root) <= second_steps,
    ensures
        run_output(seq![root], pattern, first_steps) == run_output(
            seq![root],
            pattern,
            second_steps,
        ),
{
    lemma_run_from_root(root, pattern, first_steps);
    lemma_run_from_root(root, pattern, second_steps);
}

} // verus!
