//! How Just reads a generated file.

use crate::definition::render::{needs_text, node_text, nodes_text, NodeModel};
use crate::native::{lemma_pieces_join, lemma_single_piece};
use crate::text::{first_position, lemma_first_position_is, pieces};
use vstd::prelude::*;

verus! {

/// A recipe as Just has read it.
pub struct Recipe {
    pub name: Seq<char>,
    pub needs: Seq<Seq<char>>,
    pub body: Option<Seq<char>>,
    /// What it needs may run side by side.
    pub parallel: bool,
}

/// How far Just has got in reading a file.
pub struct Reader {
    pub recipes: Seq<Recipe>,
    pub parallel: bool,
}

/// A line of the body of a recipe.
pub open spec fn indented(line: Seq<char>) -> bool {
    line.len() >= 4 && line[0] == ' ' && line[1] == ' ' && line[2] == ' ' && line[3] == ' '
}

/// The head of a recipe: a name, a colon, and what it needs behind blanks.
pub open spec fn read_head(line: Seq<char>, parallel: bool) -> Recipe {
    let colon = first_position(line, ':');
    Recipe {
        name: line.take(colon),
        needs: pieces(line.skip(colon + 1), ' ').skip(1),
        body: None,
        parallel,
    }
}

/// Just reads the next line: nothing, a comment, the attribute that lets what a
/// recipe needs run side by side, a line of a body, or the head of a recipe.
pub open spec fn just_step(state: Reader, line: Seq<char>) -> Reader {
    if line.len() == 0 || line[0] == '#' {
        state
    } else if line == "[parallel]"@ {
        Reader { parallel: true, ..state }
    } else if indented(line) && state.recipes.len() > 0 {
        let last = state.recipes.last();
        Reader {
            recipes: state.recipes.drop_last().push(Recipe { body: Some(line.skip(4)), ..last }),
            ..state
        }
    } else {
        Reader { recipes: state.recipes.push(read_head(line, state.parallel)), parallel: false }
    }
}

/// Just reads on.
pub open spec fn just_reads(state: Reader, lines: Seq<Seq<char>>) -> Reader
    decreases lines.len(),
{
    if lines.len() == 0 {
        state
    } else {
        just_step(just_reads(state, lines.drop_last()), lines.last())
    }
}

/// The recipes that Just finds in a file.
pub open spec fn recipes_in(file: Seq<char>) -> Seq<Recipe> {
    just_reads(Reader { recipes: seq![], parallel: false }, pieces(file, '\n')).recipes
}

/// A name that Just takes as one word.
pub open spec fn plain_name(name: Seq<char>) -> bool {
    &&& name.len() > 0
    &&& name[0] == '_'
    &&& !name.contains('\n')
    &&& !name.contains(':')
    &&& !name.contains(' ')
}

/// A recipe that can be written down.
pub open spec fn writable(node: NodeModel) -> bool {
    &&& plain_name(node.name)
    &&& forall|k: int| 0 <= k < node.needs.len() ==> plain_name(#[trigger] node.needs[k])
    &&& node.body matches Some(body) ==> !body.contains('\n')
}

/// A recipe as it ought to be read: what it needs runs side by side where there
/// are several.
pub open spec fn as_read(node: NodeModel) -> Recipe {
    Recipe {
        name: node.name,
        needs: node.needs,
        body: node.body,
        parallel: node.needs.len() > 1,
    }
}

proof fn lemma_reads_on(state: Reader, a: Seq<Seq<char>>, b: Seq<Seq<char>>)
    ensures
        just_reads(state, a + b) == just_reads(just_reads(state, a), b),
    decreases b.len(),
{
    if b.len() == 0 {
        assert(a + b =~= a);
    } else {
        assert((a + b).drop_last() =~= a + b.drop_last());
        assert((a + b).last() == b.last());
        lemma_reads_on(state, a, b.drop_last());
    }
}

proof fn lemma_reads_one(state: Reader, line: Seq<char>)
    ensures
        just_reads(state, seq![line]) == just_step(state, line),
{
    let lines = seq![line];
    assert(lines.drop_last() =~= Seq::<Seq<char>>::empty());
    assert(just_reads(state, lines.drop_last()) == state);
    assert(lines.last() == line);
}

spec fn head_line(node: NodeModel) -> Seq<char> {
    node.name + seq![':'] + needs_text(node.needs)
}

spec fn parallel_lines(node: NodeModel) -> Seq<Seq<char>> {
    if node.needs.len() > 1 {
        seq!["[parallel]"@]
    } else {
        seq![]
    }
}

spec fn body_lines(node: NodeModel) -> Seq<Seq<char>> {
    match node.body {
        Some(body) => seq!["    "@ + body],
        None => seq![],
    }
}

spec fn node_lines(node: NodeModel) -> Seq<Seq<char>> {
    parallel_lines(node) + seq![head_line(node)] + body_lines(node) + seq![Seq::<char>::empty()]
}

pub proof fn lemma_no_char(a: Seq<char>, b: Seq<char>, c: char)
    requires
        !a.contains(c),
        !b.contains(c),
    ensures
        !(a + b).contains(c),
{
    if (a + b).contains(c) {
        let i = choose|i: int| 0 <= i < (a + b).len() && (a + b)[i] == c;
        if i < a.len() {
            assert(a[i] == c);
        } else {
            assert(b[i - a.len()] == c);
        }
    }
}

/// A line and what follows it.
proof fn lemma_line(line: Seq<char>, rest: Seq<char>)
    requires
        !line.contains('\n'),
    ensures
        pieces(line + seq!['\n'] + rest, '\n') == seq![line] + pieces(rest, '\n'),
{
    lemma_pieces_join(line, '\n', rest);
    lemma_single_piece(line, '\n');
    assert(line.push('\n') + rest =~= line + seq!['\n'] + rest);
}

proof fn lemma_needs_text(needs: Seq<Seq<char>>)
    requires
        forall|k: int| 0 <= k < needs.len() ==> plain_name(#[trigger] needs[k]),
    ensures
        !needs_text(needs).contains('\n'),
        pieces(needs_text(needs), ' ') == seq![Seq::<char>::empty()] + needs,
    decreases needs.len(),
{
    if needs.len() == 0 {
        lemma_single_piece(needs_text(needs), ' ');
        assert(needs_text(needs) =~= Seq::<char>::empty());
        assert(seq![Seq::<char>::empty()] + needs =~= seq![Seq::<char>::empty()]);
    } else {
        let front = needs.drop_last();
        let last = needs.last();
        assert(plain_name(needs[needs.len() - 1]));
        assert forall|k: int| 0 <= k < front.len() implies plain_name(#[trigger] front[k]) by {
            assert(front[k] == needs[k]);
        }
        lemma_needs_text(front);
        lemma_no_char(needs_text(front), seq![' '], '\n');
        lemma_no_char(needs_text(front) + seq![' '], last, '\n');
        lemma_pieces_join(needs_text(front), ' ', last);
        lemma_single_piece(last, ' ');
        assert(needs_text(front).push(' ') + last =~= needs_text(needs));
        assert(seq![Seq::<char>::empty()] + front + seq![last] =~= seq![Seq::<char>::empty()]
            + needs);
    }
}

/// The lines of a written recipe.
proof fn lemma_node_lines(node: NodeModel, rest: Seq<char>)
    requires
        writable(node),
    ensures
        pieces(node_text(node) + rest, '\n') == node_lines(node) + pieces(rest, '\n'),
{
    lemma_needs_text(node.needs);
    let head = head_line(node);
    lemma_no_char(node.name, seq![':'], '\n');
    lemma_no_char(node.name + seq![':'], needs_text(node.needs), '\n');
    let body = match node.body {
        Some(body) => "    "@ + body + seq!['\n'],
        None => seq![],
    };
    let blank = Seq::<char>::empty();
    let last = seq!['\n'] + rest;
    lemma_line(blank, rest);
    assert(blank + seq!['\n'] + rest =~= last);
    let more = body + last;
    if let Some(text) = node.body {
        reveal_strlit("    ");
        lemma_no_char("    "@, text, '\n');
        lemma_line("    "@ + text, last);
        assert("    "@ + text + seq!['\n'] + last =~= more);
        assert(pieces(more, '\n') =~= body_lines(node) + pieces(last, '\n'));
    } else {
        assert(more =~= last);
        assert(pieces(more, '\n') =~= body_lines(node) + pieces(last, '\n'));
    }
    lemma_line(head, more);
    let main = head + seq!['\n'] + more;
    if node.needs.len() > 1 {
        let mark = "[parallel]"@;
        reveal_strlit("[parallel]");
        reveal_strlit("[parallel]\n");
        assert("[parallel]\n"@ =~= mark + seq!['\n']);
        lemma_line(mark, main);
        assert(node_text(node) + rest =~= mark + seq!['\n'] + main);
    } else {
        assert(node_text(node) + rest =~= main);
    }
    assert(pieces(node_text(node) + rest, '\n') =~= node_lines(node) + pieces(rest, '\n'));
}

proof fn lemma_reads_head(state: Reader, node: NodeModel)
    requires
        writable(node),
        state.parallel == (node.needs.len() > 1),
    ensures
        just_step(state, head_line(node)) == (Reader {
            recipes: state.recipes.push(Recipe { body: None, ..as_read(node) }),
            parallel: false,
        }),
{
    let line = head_line(node);
    let n = node.name.len() as int;
    assert(line[0] == '_');
    reveal_strlit("[parallel]");
    assert(line != "[parallel]"@) by {
        assert("[parallel]"@[0] == '[');
    }
    assert forall|i: int| 0 <= i < n implies line[i] != ':' by {
        assert(node.name[i] != ':') by {
            if node.name[i] == ':' {
                assert(node.name.contains(':'));
            }
        }
    }
    assert(line[n] == ':');
    lemma_first_position_is(line, ':', n);
    assert(line.take(n) =~= node.name);
    assert(line.skip(n + 1) =~= needs_text(node.needs));
    lemma_needs_text(node.needs);
    assert((seq![Seq::<char>::empty()] + node.needs).skip(1) =~= node.needs);
}

proof fn lemma_reads_node(state: Reader, node: NodeModel)
    requires
        writable(node),
        !state.parallel,
    ensures
        just_reads(state, node_lines(node)) == (Reader {
            recipes: state.recipes.push(as_read(node)),
            parallel: false,
        }),
{
    let head = seq![head_line(node)];
    let blank = Seq::<char>::empty();
    let marked = Reader { parallel: node.needs.len() > 1, ..state };
    lemma_reads_on(state, parallel_lines(node) + head + body_lines(node), seq![blank]);
    lemma_reads_on(state, parallel_lines(node) + head, body_lines(node));
    lemma_reads_on(state, parallel_lines(node), head);
    if node.needs.len() > 1 {
        reveal_strlit("[parallel]");
        lemma_reads_one(state, "[parallel]"@);
    }
    assert(just_reads(state, parallel_lines(node)) == marked);
    lemma_reads_one(marked, head_line(node));
    lemma_reads_head(marked, node);
    let headed = just_step(marked, head_line(node));
    if let Some(body) = node.body {
        let line = "    "@ + body;
        reveal_strlit("    ");
        reveal_strlit("[parallel]");
        lemma_reads_one(headed, line);
        assert(indented(line));
        assert(line[0] == ' ' && "[parallel]"@[0] == '[');
        assert(line.skip(4) =~= body);
        assert(headed.recipes.last() == (Recipe { body: None, ..as_read(node) }));
        assert(headed.recipes.drop_last() =~= state.recipes);
        assert(just_step(headed, line).recipes == state.recipes.push(as_read(node)));
    }
    let read = just_reads(headed, body_lines(node));
    lemma_reads_one(read, blank);
}

spec fn all_lines(nodes: Seq<NodeModel>) -> Seq<Seq<char>>
    decreases nodes.len(),
{
    if nodes.len() == 0 {
        seq![]
    } else {
        all_lines(nodes.drop_last()) + node_lines(nodes.last())
    }
}

pub open spec fn all_as_read(nodes: Seq<NodeModel>) -> Seq<Recipe> {
    Seq::new(nodes.len(), |m: int| as_read(nodes[m]))
}

proof fn lemma_all_lines(nodes: Seq<NodeModel>, rest: Seq<char>)
    requires
        forall|m: int| 0 <= m < nodes.len() ==> writable(#[trigger] nodes[m]),
    ensures
        pieces(nodes_text(nodes) + rest, '\n') == all_lines(nodes) + pieces(rest, '\n'),
    decreases nodes.len(),
{
    if nodes.len() == 0 {
        assert(nodes_text(nodes) + rest =~= rest);
        assert(all_lines(nodes) + pieces(rest, '\n') =~= pieces(rest, '\n'));
    } else {
        let front = nodes.drop_last();
        assert(writable(nodes[nodes.len() - 1]));
        assert forall|m: int| 0 <= m < front.len() implies writable(#[trigger] front[m]) by {
            assert(front[m] == nodes[m]);
        }
        lemma_node_lines(nodes.last(), rest);
        lemma_all_lines(front, node_text(nodes.last()) + rest);
        assert(nodes_text(nodes) + rest =~= nodes_text(front) + (node_text(nodes.last()) + rest));
        assert(all_lines(nodes) + pieces(rest, '\n') =~= all_lines(front) + (node_lines(
            nodes.last(),
        ) + pieces(rest, '\n')));
    }
}

proof fn lemma_reads_all(state: Reader, nodes: Seq<NodeModel>)
    requires
        forall|m: int| 0 <= m < nodes.len() ==> writable(#[trigger] nodes[m]),
        !state.parallel,
    ensures
        just_reads(state, all_lines(nodes)) == (Reader {
            recipes: state.recipes + all_as_read(nodes),
            parallel: false,
        }),
    decreases nodes.len(),
{
    if nodes.len() == 0 {
        assert(state.recipes + all_as_read(nodes) =~= state.recipes);
    } else {
        let front = nodes.drop_last();
        assert(writable(nodes[nodes.len() - 1]));
        assert forall|m: int| 0 <= m < front.len() implies writable(#[trigger] front[m]) by {
            assert(front[m] == nodes[m]);
        }
        lemma_reads_all(state, front);
        lemma_reads_on(state, all_lines(front), node_lines(nodes.last()));
        lemma_reads_node(just_reads(state, all_lines(front)), nodes.last());
        assert(state.recipes + all_as_read(nodes) =~= (state.recipes + all_as_read(front)).push(
            as_read(nodes.last()),
        ));
    }
}

/// Just reads back the recipes of a file that was written from them.
pub proof fn lemma_file_reads_back(nodes: Seq<NodeModel>)
    requires
        forall|m: int| 0 <= m < nodes.len() ==> writable(#[trigger] nodes[m]),
    ensures
        recipes_in("# Generated by Pipeline. Do not edit.\n\n"@ + nodes_text(nodes))
            == all_as_read(nodes),
{
    let notice = "# Generated by Pipeline. Do not edit."@;
    let start = Reader { recipes: Seq::<Recipe>::empty(), parallel: false };
    let blank = Seq::<char>::empty();
    let text = nodes_text(nodes);
    reveal_strlit("# Generated by Pipeline. Do not edit.");
    reveal_strlit("# Generated by Pipeline. Do not edit.\n\n");
    let file = "# Generated by Pipeline. Do not edit.\n\n"@ + text;
    let rest = blank + seq!['\n'] + text;
    assert(file =~= notice + seq!['\n'] + rest);
    lemma_line(notice, rest);
    lemma_line(blank, text);
    lemma_all_lines(nodes, blank);
    assert(text + blank =~= text);
    lemma_single_piece(blank, '\n');
    let lines = seq![notice] + (seq![blank] + (all_lines(nodes) + seq![blank]));
    assert(pieces(file, '\n') == lines);
    lemma_reads_on(start, seq![notice], seq![blank] + (all_lines(nodes) + seq![blank]));
    lemma_reads_one(start, notice);
    assert(just_step(start, notice) == start);
    lemma_reads_on(start, seq![blank], all_lines(nodes) + seq![blank]);
    lemma_reads_one(start, blank);
    lemma_reads_on(start, all_lines(nodes), seq![blank]);
    lemma_reads_all(start, nodes);
    lemma_reads_one(just_reads(start, all_lines(nodes)), blank);
    assert(start.recipes + all_as_read(nodes) =~= all_as_read(nodes));
}

} // verus!
