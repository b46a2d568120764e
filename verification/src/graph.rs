//! A directed graph stored as adjacency lists.

use vstd::prelude::*;
use vstd::string::StringExecFns;

verus! {

/// A directed edge `(n1, n2)` from `n1` to `n2`.
pub type Edge = (usize, usize);

/// The out-neighbours of one node, in the order in which the edges were added.
pub type Node = Vec<usize>;

/// A directed graph. Its nodes are numbered densely from 0, so a graph of
/// `N` nodes has the nodes `0, 1, ..., N - 1`; `nodes[n]` lists the heads of
/// the edges that leave `n`.
pub struct Graph {
    pub nodes: Vec<Node>,
}

impl View for Graph {
    type V = Seq<Seq<usize>>;

    /// The adjacency lists as sequences.
    open spec fn view(&self) -> Seq<Seq<usize>> {
        Seq::new(self.nodes.len() as nat, |n: int| self.nodes[n]@)
    }
}

/// The decimal digit `d` as a character.
pub open spec fn digit(d: nat) -> char {
    if d == 0 {
        '0'
    } else if d == 1 {
        '1'
    } else if d == 2 {
        '2'
    } else if d == 3 {
        '3'
    } else if d == 4 {
        '4'
    } else if d == 5 {
        '5'
    } else if d == 6 {
        '6'
    } else if d == 7 {
        '7'
    } else if d == 8 {
        '8'
    } else {
        '9'
    }
}

/// The decimal numeral of `n`, without sign or leading zeros.
pub open spec fn decimal(n: nat) -> Seq<char>
    decreases n,
{
    if n < 10 {
        seq![digit(n)]
    } else {
        decimal(n / 10).push(digit(n % 10))
    }
}

/// The larger of two node numbers.
pub open spec fn larger(n1: usize, n2: usize) -> usize {
    if n1 >= n2 {
        n1
    } else {
        n2
    }
}

/// The message for a node number `id` that a graph of `size` nodes lacks.
pub open spec fn misfit_text(id: nat, size: nat) -> Seq<char> {
    "Node with id "@ + decimal(id) + " does not fit in Graph of size "@ + decimal(size) + "."@
}

/// Whether both ends of `edge` are nodes of a graph of `size` nodes.
pub open spec fn fits(size: nat, edge: Edge) -> bool {
    edge.0 < size && edge.1 < size
}

/// The adjacency lists after `edge` was added.
pub open spec fn with_edge(adj: Seq<Seq<usize>>, edge: Edge) -> Seq<Seq<usize>> {
    adj.update(edge.0 as int, adj[edge.0 as int].push(edge.1))
}

/// The adjacency lists after `edges` were added one after the other.
pub open spec fn with_edges(adj: Seq<Seq<usize>>, edges: Seq<Edge>) -> Seq<Seq<usize>>
    decreases edges.len(),
{
    if edges.len() == 0 {
        adj
    } else {
        with_edge(with_edges(adj, edges.drop_last()), edges.last())
    }
}

/// The number of edges at the front of `edges` that fit a graph of `size`
/// nodes: the index of the first that does not, or the length if all do.
pub open spec fn first_misfit(size: nat, edges: Seq<Edge>) -> nat
    decreases edges.len(),
{
    if edges.len() == 0 || !fits(size, edges[0]) {
        0
    } else {
        1 + first_misfit(size, edges.drop_first())
    }
}

/// A row of an edge list as a plain value: the edge, or the text of the error.
pub open spec fn row_view(row: Result<Edge, String>) -> Result<Edge, Seq<char>> {
    match row {
        Ok(edge) => Ok(edge),
        Err(text) => Err(text@),
    }
}

/// The rows of an edge list as plain values.
pub open spec fn rows_view(rows: Seq<Result<Edge, String>>) -> Seq<Result<Edge, Seq<char>>> {
    rows.map_values(|row: Result<Edge, String>| row_view(row))
}

/// Whether a row holds an edge that fits a graph of `size` nodes.
pub open spec fn row_fits(size: nat, row: Result<Edge, Seq<char>>) -> bool {
    match row {
        Ok(edge) => fits(size, edge),
        Err(_) => false,
    }
}

/// The edge of a row that holds one.
pub open spec fn row_edge(row: Result<Edge, Seq<char>>) -> Edge {
    match row {
        Ok(edge) => edge,
        Err(_) => (0, 0),
    }
}

/// The error that a row which does not fit leads to: its own, or the message
/// for the larger end of its edge.
pub open spec fn row_failure(size: nat, row: Result<Edge, Seq<char>>) -> Seq<char> {
    match row {
        Ok(edge) => misfit_text(larger(edge.0, edge.1) as nat, size),
        Err(text) => text,
    }
}

/// The number of rows at the front of `rows` that hold an edge which fits a
/// graph of `size` nodes.
pub open spec fn first_failure(size: nat, rows: Seq<Result<Edge, Seq<char>>>) -> nat
    decreases rows.len(),
{
    if rows.len() == 0 || !row_fits(size, rows[0]) {
        0
    } else {
        1 + first_failure(size, rows.drop_first())
    }
}

/// The rows that reading `content` as an edge list with the field separator
/// `delimiter` gives: one per record, each an edge or the text of the error
/// that the record led to.
pub uninterp spec fn csv_edge_rows(content: Seq<u8>, delimiter: u8) -> Seq<Result<(usize, usize), Seq<char>>>;

/// Reads `content` as an edge list: records without a header row, two node
/// numbers each, separated by `delimiter`.
///
/// The body hands the bytes to `csv::ReaderBuilder` and collects what
/// `Reader::into_deserialize` yields, each error turned into its text. The
/// contract is taken on trust: it only names the rows, as a function of the
/// bytes and the delimiter.
#[verifier::external_body]
pub fn read_edge_list_csv(content: &[u8], delimiter: u8) -> (rows: Vec<Result<Edge, String>>)
    ensures
        rows_view(rows@) == csv_edge_rows(content@, delimiter),
{
    csv::ReaderBuilder::new()
        .has_headers(false)
        .delimiter(delimiter)
        .from_reader(content)
        .into_deserialize::<(usize, usize)>()
        .map(|row| row.map_err(|error| error.to_string()))
        .collect()
}

/// One decimal digit as text.
fn digit_text(d: usize) -> (text: &'static str)
    requires
        d < 10,
    ensures
        text@ == seq![digit(d as nat)],
{
    proof {
        reveal_strlit("0");
        reveal_strlit("1");
        reveal_strlit("2");
        reveal_strlit("3");
        reveal_strlit("4");
        reveal_strlit("5");
        reveal_strlit("6");
        reveal_strlit("7");
        reveal_strlit("8");
        reveal_strlit("9");
    }
    let text = if d == 0 {
        "0"
    } else if d == 1 {
        "1"
    } else if d == 2 {
        "2"
    } else if d == 3 {
        "3"
    } else if d == 4 {
        "4"
    } else if d == 5 {
        "5"
    } else if d == 6 {
        "6"
    } else if d == 7 {
        "7"
    } else if d == 8 {
        "8"
    } else {
        "9"
    };
    assert(text@ =~= seq![digit(d as nat)]);
    text
}

/// Appends the decimal numeral of `n` to `text`.
fn push_decimal(text: &mut String, n: usize)
    ensures
        final(text)@ == old(text)@ + decimal(n as nat),
    decreases n,
{
    if n >= 10 {
        push_decimal(text, n / 10);
    }
    text.append(digit_text(n % 10));
    assert(final(text)@ =~= old(text)@ + decimal(n as nat));
}

/// Writes the message for a node number that the graph lacks.
fn misfit_message(id: usize, size: usize) -> (text: String)
    ensures
        text@ == misfit_text(id as nat, size as nat),
{
    let mut text = String::from_str("Node with id ");
    push_decimal(&mut text, id);
    text.append(" does not fit in Graph of size ");
    push_decimal(&mut text, size);
    text.append(".");
    text
}

/// The edges that leave node `n` of the complete graph on `size` nodes: all
/// nodes but `n`, in increasing order.
pub open spec fn complete_row(size: nat, n: int) -> Seq<usize> {
    Seq::new(
        (size - 1) as nat,
        |k: int|
            if k < n {
                k as usize
            } else {
                (k + 1) as usize
            },
    )
}

/// If the first `k` edges fit and the next does not, or there is no next,
/// then `k` is the index of the first misfit.
pub proof fn lemma_first_misfit(size: nat, edges: Seq<Edge>, k: int)
    requires
        0 <= k <= edges.len(),
        forall|i: int| 0 <= i < k ==> fits(size, #[trigger] edges[i]),
        k < edges.len() ==> !fits(size, edges[k]),
    ensures
        first_misfit(size, edges) == k,
    decreases k,
{
    if k > 0 {
        let rest = edges.drop_first();
        assert forall|i: int| 0 <= i < k - 1 implies fits(size, #[trigger] rest[i]) by {
            assert(rest[i] == edges[i + 1]);
        }
        lemma_first_misfit(size, rest, k - 1);
    }
}

/// If the first `k` rows fit and the next does not, or there is no next,
/// then `k` is the index of the first failure.
pub proof fn lemma_first_failure(size: nat, rows: Seq<Result<Edge, Seq<char>>>, k: int)
    requires
        0 <= k <= rows.len(),
        forall|i: int| 0 <= i < k ==> row_fits(size, #[trigger] rows[i]),
        k < rows.len() ==> !row_fits(size, rows[k]),
    ensures
        first_failure(size, rows) == k,
    decreases k,
{
    if k > 0 {
        let rest = rows.drop_first();
        assert forall|i: int| 0 <= i < k - 1 implies row_fits(size, #[trigger] rest[i]) by {
            assert(rest[i] == rows[i + 1]);
        }
        lemma_first_failure(size, rest, k - 1);
    }
}

impl Graph {
    /// Every edge ends at a node of the graph.
    pub open spec fn wf(&self) -> bool {
        forall|n: int, k: int|
            0 <= n < self@.len() && 0 <= k < self@[n].len() ==> (#[trigger] self@[n][k]) < self@.len()
    }

    /// Creates a graph of `size` nodes and no edges.
    pub fn new(size: usize) -> (graph: Graph)
        ensures
            graph@ == Seq::new(size as nat, |n: int| Seq::<usize>::empty()),
            graph.wf(),
    {
        let mut nodes: Vec<Node> = Vec::new();
        let mut n: usize = 0;
        while n < size
            invariant
                n <= size,
                nodes.len() == n,
                forall|i: int| 0 <= i < n ==> (#[trigger] nodes[i])@ == Seq::<usize>::empty(),
            decreases size - n,
        {
            nodes.push(Vec::new());
            n = n + 1;
        }
        let graph = Graph { nodes };
        assert(graph@ =~= Seq::new(size as nat, |n: int| Seq::<usize>::empty()));
        graph
    }

    /// Returns the number of nodes in the graph.
    pub fn size(&self) -> (size: usize)
        ensures
            size == self@.len(),
    {
        self.nodes.len()
    }

    /// Creates the complete graph on `size` nodes: from every node an edge
    /// leads to every other node, and none to itself.
    pub fn fully_connected(size: usize) -> (graph: Graph)
        ensures
            graph@ == Seq::new(size as nat, |n: int| complete_row(size as nat, n)),
            graph.wf(),
    {
        let mut nodes: Vec<Node> = Vec::new();
        let mut n: usize = 0;
        while n < size
            invariant
                n <= size,
                nodes.len() == n,
                forall|i: int| 0 <= i < n ==> (#[trigger] nodes[i])@ == complete_row(size as nat, i),
            decreases size - n,
        {
            let mut row: Vec<usize> = Vec::new();
            let mut i: usize = 0;
            while i < size
                invariant
                    i <= size,
                    n < size,
                    row.len() == (if i <= n { i as int } else { i - 1 }),
                    forall|k: int| 0 <= k < row.len() ==> (#[trigger] row[k]) == (if k < n { k } else { k + 1 }),
                decreases size - i,
            {
                if i != n {
                    row.push(i);
                }
                i = i + 1;
            }
            assert(row@ =~= complete_row(size as nat, n as int));
            nodes.push(row);
            n = n + 1;
        }
        let graph = Graph { nodes };
        assert(graph@ =~= Seq::new(size as nat, |n: int| complete_row(size as nat, n)));
        graph
    }

    /// Builds a graph of `size` nodes from an edge list: `content` holds one
    /// pair of node numbers per record, separated by `delimiter`.
    ///
    /// The rows are added in order. The first row that could not be read, or
    /// whose edge has an end that is no node of the graph, ends the work with
    /// its error.
    pub fn from_csv(content: &[u8], size: usize, delimiter: u8) -> (result: Result<Graph, String>)
        ensures
            ({
                let rows = csv_edge_rows(content@, delimiter);
                let k = first_failure(size as nat, rows) as int;
                match result {
                    Ok(graph) => {
                        &&& k == rows.len()
                        &&& graph@ == with_edges(
                            Seq::new(size as nat, |n: int| Seq::<usize>::empty()),
                            rows.map_values(|row| row_edge(row)),
                        )
                        &&& graph.wf()
                    },
                    Err(text) => k < rows.len() && text@ == row_failure(size as nat, rows[k]),
                }
            }),
    {
        let mut graph = Graph::new(size);
        let rows = read_edge_list_csv(content, delimiter);
        match graph.add_falliable_edges(rows) {
            Ok(()) => {
                proof {
                    let named = csv_edge_rows(content@, delimiter);
                    assert(named.take(named.len() as int) =~= named);
                }
                Ok(graph)
            },
            Err(text) => Err(text),
        }
    }

    /// Adds an edge from node `n1` to `n2`.
    ///
    /// Fails, and leaves the graph as it was, if `n1` or `n2` is no node of
    /// the graph; the error names the larger of the two.
    pub fn add_edge(&mut self, n1: usize, n2: usize) -> (result: Result<(), String>)
        ensures
            match result {
                Ok(()) => {
                    &&& fits(old(self)@.len(), (n1, n2))
                    &&& final(self)@ == with_edge(old(self)@, (n1, n2))
                },
                Err(text) => {
                    &&& !fits(old(self)@.len(), (n1, n2))
                    &&& final(self)@ == old(self)@
                    &&& text@ == misfit_text(larger(n1, n2) as nat, old(self)@.len())
                },
            },
            old(self).wf() ==> final(self).wf(),
    {
        let id = if n1 >= n2 {
            n1
        } else {
            n2
        };
        if id >= self.size() {
            Err(misfit_message(id, self.size()))
        } else {
            self.nodes[n1].push(n2);
            assert(final(self)@ =~= with_edge(old(self)@, (n1, n2)));
            Ok(())
        }
    }

    /// Adds `edges` to the graph, one after the other.
    ///
    /// The first edge with an end that is no node of the graph ends the work
    /// with an error; the edges before it stay added.
    pub fn add_edges(&mut self, edges: Vec<Edge>) -> (result: Result<(), String>)
        ensures
            ({
                let size = old(self)@.len();
                let k = first_misfit(size, edges@) as int;
                &&& final(self)@ == with_edges(old(self)@, edges@.take(k))
                &&& match result {
                    Ok(()) => k == edges.len(),
                    Err(text) => {
                        &&& k < edges.len()
                        &&& text@ == misfit_text(larger(edges[k].0, edges[k].1) as nat, size)
                    },
                }
            }),
            old(self).wf() ==> final(self).wf(),
    {
        let ghost size = self@.len();
        let mut i: usize = 0;
        while i < edges.len()
            invariant
                i <= edges.len(),
                self@.len() == size,
                size == old(self)@.len(),
                forall|j: int| 0 <= j < i ==> fits(size, #[trigger] edges[j]),
                self@ == with_edges(old(self)@, edges@.take(i as int)),
                old(self).wf() ==> self.wf(),
            decreases edges.len() - i,
        {
            let (n1, n2) = edges[i];
            match self.add_edge(n1, n2) {
                Ok(()) => {},
                Err(text) => {
                    proof {
                        lemma_first_misfit(size, edges@, i as int);
                    }
                    return Err(text);
                },
            }
            proof {
                let next = edges@.take(i + 1);
                assert(next.drop_last() =~= edges@.take(i as int));
                assert(next.last() == edges[i as int]);
            }
            i = i + 1;
        }
        proof {
            lemma_first_misfit(size, edges@, edges.len() as int);
        }
        Ok(())
    }

    /// Adds the edges of `rows` to the graph, one after the other.
    ///
    /// The first row that is an error, or whose edge has an end that is no
    /// node of the graph, ends the work with its error; the edges before it
    /// stay added.
    pub fn add_falliable_edges(&mut self, rows: Vec<Result<Edge, String>>) -> (result: Result<
        (),
        String,
    >)
        ensures
            ({
                let size = old(self)@.len();
                let plain = rows_view(rows@);
                let k = first_failure(size, plain) as int;
                &&& final(self)@ == with_edges(
                    old(self)@,
                    plain.take(k).map_values(|row| row_edge(row)),
                )
                &&& match result {
                    Ok(()) => k == rows.len(),
                    Err(text) => k < rows.len() && text@ == row_failure(size, plain[k]),
                }
            }),
            old(self).wf() ==> final(self).wf(),
    {
        let ghost size = self@.len();
        let ghost plain = rows_view(rows@);
        let mut i: usize = 0;
        while i < rows.len()
            invariant
                i <= rows.len(),
                self@.len() == size,
                size == old(self)@.len(),
                plain == rows_view(rows@),
                forall|j: int| 0 <= j < i ==> row_fits(size, #[trigger] plain[j]),
                self@ == with_edges(
                    old(self)@,
                    plain.take(i as int).map_values(|row| row_edge(row)),
                ),
                old(self).wf() ==> self.wf(),
            decreases rows.len() - i,
        {
            match &rows[i] {
                Ok((n1, n2)) => {
                    match self.add_edge(*n1, *n2) {
                        Ok(()) => {},
                        Err(text) => {
                            proof {
                                lemma_first_failure(size, plain, i as int);
                            }
                            return Err(text);
                        },
                    }
                },
                Err(text) => {
                    proof {
                        lemma_first_failure(size, plain, i as int);
                    }
                    return Err(text.clone());
                },
            }
            proof {
                let next = plain.take(i + 1).map_values(|row| row_edge(row));
                let done = plain.take(i as int).map_values(|row| row_edge(row));
                assert(next.drop_last() =~= done);
                assert(next.last() == row_edge(plain[i as int]));
            }
            i = i + 1;
        }
        proof {
            lemma_first_failure(size, plain, rows.len() as int);
        }
        Ok(())
    }
}

} // verus!
