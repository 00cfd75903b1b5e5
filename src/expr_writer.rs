use vstd::prelude::*;
use vstd::string::StringSliceAdditionalSpecFns;

use crate::text::{push_char, push_text};
use crate::expr::BinaryOperator;

verus! {

/// A tree to draw: each node has a label, and a branch has two children.
#[derive(Debug)]
pub enum Diagram {
    Leaf { label: String },
    Branch { label: String, lhs: Box<Diagram>, rhs: Box<Diagram> },
}

pub enum DiagramModel {
    Leaf(Seq<char>),
    Branch(Seq<char>, Box<DiagramModel>, Box<DiagramModel>),
}

pub open spec fn diagram_model(d: Diagram) -> DiagramModel
    decreases d,
{
    match d {
        Diagram::Leaf { label } => DiagramModel::Leaf(label@),
        Diagram::Branch { label, lhs, rhs } => DiagramModel::Branch(
            label@,
            Box::new(diagram_model(*lhs)),
            Box::new(diagram_model(*rhs)),
        ),
    }
}

impl View for Diagram {
    type V = DiagramModel;

    open spec fn view(&self) -> DiagramModel {
        diagram_model(*self)
    }
}

/// What a column draws on a line.
#[derive(Clone, Copy, Debug, PartialEq, Eq, Structural)]
pub enum ColumnState {
    /// Nothing: the ancestor's subtrees are all drawn.
    Empty,
    /// A branch: the ancestor's second child is still to come.
    Start,
    /// A vertical line through a branch opened higher up.
    Open,
    /// A corner: the ancestor's last child starts here.
    End,
}

/// One level of ancestry on a line: its display width and what it draws.
#[derive(Clone, Copy, Debug, PartialEq, Eq, Structural)]
pub struct Column {
    pub width: usize,
    pub state: ColumnState,
}

pub open spec fn glyph(st: ColumnState) -> Seq<char> {
    match st {
        ColumnState::Empty => seq![],
        ColumnState::Start => seq!['\u{251c}', '\u{2500}'],
        ColumnState::Open => seq!['\u{2502}', ' '],
        ColumnState::End => seq!['\u{2514}', '\u{2500}'],
    }
}

pub open spec fn spaces(n: int) -> Seq<char> {
    Seq::new(if n > 0 { n as nat } else { 0 }, |i: int| ' ')
}

/// A column's text: its glyph right-aligned in its width, then a space.
pub open spec fn segment(c: Column) -> Seq<char> {
    spaces(c.width - glyph(c.state).len()) + glyph(c.state) + seq![' ']
}

pub open spec fn prefix(cols: Seq<Column>) -> Seq<char>
    decreases cols.len(),
{
    if cols.len() == 0 {
        seq![]
    } else {
        prefix(cols.drop_last()) + segment(cols.last())
    }
}

/// The state of an ancestor's column once one more level is drawn below it: a
/// branch goes on as a vertical line and a corner leaves nothing behind.
pub open spec fn advance(c: Column) -> Column {
    Column {
        width: c.width,
        state: match c.state {
            ColumnState::Start => ColumnState::Open,
            ColumnState::End => ColumnState::Empty,
            s => s,
        },
    }
}

/// The columns of a node's children: the ancestors' columns advanced, and one
/// more as wide as the node's label and a space, in state `st`.
pub open spec fn child_columns(cols: Seq<Column>, label: Seq<char>, st: ColumnState) -> Seq<Column> {
    cols.map_values(|c: Column| advance(c)).push(
        Column { width: (encode_utf8_len(label) + 1) as usize, state: st },
    )
}

pub open spec fn encode_utf8_len(s: Seq<char>) -> nat {
    vstd::utf8::encode_utf8(s).len()
}

/// The lines that draw `d` below the columns `cols`, in pre-order: the node's
/// own line, then its left subtree, then its right subtree.
pub open spec fn lines(d: DiagramModel, cols: Seq<Column>) -> Seq<Seq<char>>
    decreases d,
{
    match d {
        DiagramModel::Leaf(label) => seq![prefix(cols) + label],
        DiagramModel::Branch(label, l, r) => seq![prefix(cols) + label] + lines(
            *l,
            child_columns(cols, label, ColumnState::Start),
        ) + lines(*r, child_columns(cols, label, ColumnState::End)),
    }
}

/// Every label's length in bytes leaves room for one more.
pub open spec fn labels_fit(d: DiagramModel) -> bool
    decreases d,
{
    match d {
        DiagramModel::Leaf(label) => true,
        DiagramModel::Branch(label, l, r) => encode_utf8_len(label) < usize::MAX && labels_fit(*l)
            && labels_fit(*r),
    }
}

pub open spec fn texts(v: Seq<String>) -> Seq<Seq<char>> {
    v.map_values(|s: String| s@)
}

fn write_segment(line: &mut String, c: Column)
    ensures
        final(line)@ == old(line)@ + segment(c),
{
    let glyph_len: usize = match c.state {
        ColumnState::Empty => 0,
        _ => 2,
    };
    let mut i: usize = glyph_len;
    let ghost start = line@;
    while i < c.width
        invariant
            glyph_len <= i,
            glyph_len == glyph(c.state).len(),
            i <= if c.width > glyph_len { c.width } else { glyph_len },
            line@ =~= start + spaces(i - glyph_len),
        decreases c.width - i,
    {
        push_char(line, ' ');
        i = i + 1;
    }
    assert(line@ =~= start + spaces(c.width - glyph(c.state).len()));
    match c.state {
        ColumnState::Empty => {},
        ColumnState::Start => {
            push_char(line, '\u{251c}');
            push_char(line, '\u{2500}');
        },
        ColumnState::Open => {
            push_char(line, '\u{2502}');
            push_char(line, ' ');
        },
        ColumnState::End => {
            push_char(line, '\u{2514}');
            push_char(line, '\u{2500}');
        },
    }
    push_char(line, ' ');
    assert(line@ =~= start + segment(c));
}

fn write_prefix(cols: &Vec<Column>) -> (r: String)
    ensures
        r@ == prefix(cols@),
{
    let mut line = String::new();
    let mut i: usize = 0;
    while i < cols.len()
        invariant
            0 <= i <= cols@.len(),
            line@ == prefix(cols@.take(i as int)),
        decreases cols@.len() - i,
    {
        proof {
            assert(cols@.take(i + 1).drop_last() =~= cols@.take(i as int));
        }
        write_segment(&mut line, cols[i]);
        i = i + 1;
    }
    proof {
        assert(cols@.take(cols@.len() as int) =~= cols@);
    }
    line
}

fn advance_all(cols: &Vec<Column>) -> (r: Vec<Column>)
    ensures
        r@ == cols@.map_values(|c: Column| advance(c)),
{
    let mut out: Vec<Column> = Vec::new();
    let mut i: usize = 0;
    while i < cols.len()
        invariant
            0 <= i <= cols@.len(),
            out@ =~= cols@.take(i as int).map_values(|c: Column| advance(c)),
        decreases cols@.len() - i,
    {
        let c = cols[i];
        let state = match c.state {
            ColumnState::Start => ColumnState::Open,
            ColumnState::End => ColumnState::Empty,
            s => s,
        };
        out.push(Column { width: c.width, state });
        i = i + 1;
    }
    proof {
        assert(cols@.take(cols@.len() as int) =~= cols@);
    }
    out
}

fn do_write_expr_tree(d: &Diagram, cols: Vec<Column>, out: &mut Vec<String>)
    requires
        labels_fit(d@),
    ensures
        texts(final(out)@) == texts(old(out)@) + lines(d@, cols@),
    decreases d,
{
    let mut line = write_prefix(&cols);
    match d {
        Diagram::Leaf { label } => {
            push_text(&mut line, label.as_str());
            out.push(line);
            proof {
                assert(texts(final(out)@) =~= texts(old(out)@) + lines(d@, cols@));
            }
        },
        Diagram::Branch { label, lhs, rhs } => {
            push_text(&mut line, label.as_str());
            out.push(line);
            let ghost after_line = out@;
            let width = label.as_str().len() + 1;
            let advanced = advance_all(&cols);
            let mut left = advanced.clone();
            left.push(Column { width, state: ColumnState::Start });
            let mut right = advanced;
            right.push(Column { width, state: ColumnState::End });
            proof {
                assert(left@ =~= child_columns(cols@, label@, ColumnState::Start));
                assert(right@ =~= child_columns(cols@, label@, ColumnState::End));
            }
            do_write_expr_tree(lhs, left, out);
            do_write_expr_tree(rhs, right, out);
            proof {
                assert(texts(after_line) =~= texts(old(out)@) + seq![prefix(cols@) + label@]);
                assert(texts(final(out)@) =~= texts(old(out)@) + lines(d@, cols@));
            }
        },
    }
}

/// The lines that draw `d`: one per node in pre-order, each its ancestry's
/// columns followed by its label.
pub fn write_expr_tree(d: &Diagram) -> (r: Vec<String>)
    requires
        labels_fit(d@),
    ensures
        texts(r@) == lines(d@, seq![]),
{
    let mut out: Vec<String> = Vec::new();
    let cols: Vec<Column> = Vec::new();
    proof {
        assert(cols@ =~= Seq::<Column>::empty());
    }
    do_write_expr_tree(d, cols, &mut out);
    proof {
        assert(texts(Seq::<String>::empty()) + lines(d@, seq![]) =~= lines(d@, seq![]));
    }
    out
}

/// The label of a number: its text, followed by ` (name)` where it was read
/// through the variable `name`.
pub fn literal_label(value: &str, variable: Option<&String>) -> (r: String)
    ensures
        r@ == value@ + match variable {
            Some(n) => " ("@ + n@ + ")"@,
            None => Seq::<char>::empty(),
        },
{
    let mut label = String::new();
    push_text(&mut label, value);
    match variable {
        Some(n) => {
            push_text(&mut label, " (");
            push_text(&mut label, n.as_str());
            push_text(&mut label, ")");
            assert(label@ =~= value@ + (" ("@ + n@ + ")"@));
        },
        None => {
            assert(label@ =~= value@ + Seq::<char>::empty());
        },
    }
    label
}

/// The label of a variable that nothing binds.
pub fn unbound_label(name: &String) -> (r: String)
    ensures
        r@ == name@ + " <- unbound variable"@,
{
    let mut label = String::new();
    push_text(&mut label, name.as_str());
    push_text(&mut label, " <- unbound variable");
    assert(label@ =~= name@ + " <- unbound variable"@);
    label
}

/// The label of an operation: its value's text, ` = ` and the operator's symbol.
pub fn operation_label(value: &str, op: BinaryOperator) -> (r: String)
    ensures
        r@ == value@ + " = "@ + seq![op.spec_symbol()],
{
    let mut label = String::new();
    push_text(&mut label, value);
    push_text(&mut label, " = ");
    push_char(&mut label, op.symbol());
    assert(label@ =~= value@ + " = "@ + seq![op.spec_symbol()]);
    label
}

/// The columns of each line that draws `d` below `cols`, in the order of `lines`.
pub open spec fn rows(d: DiagramModel, cols: Seq<Column>) -> Seq<Seq<Column>>
    decreases d,
{
    match d {
        DiagramModel::Leaf(_) => seq![cols],
        DiagramModel::Branch(label, l, r) => seq![cols] + rows(
            *l,
            child_columns(cols, label, ColumnState::Start),
        ) + rows(*r, child_columns(cols, label, ColumnState::End)),
    }
}

/// The labels of `d` in pre-order.
pub open spec fn labels(d: DiagramModel) -> Seq<Seq<char>>
    decreases d,
{
    match d {
        DiagramModel::Leaf(label) => seq![label],
        DiagramModel::Branch(label, l, r) => seq![label] + labels(*l) + labels(*r),
    }
}

/// The depth of each node of `d` in pre-order, the root at depth `k`.
pub open spec fn depths(d: DiagramModel, k: nat) -> Seq<nat>
    decreases d,
{
    match d {
        DiagramModel::Leaf(_) => seq![k],
        DiagramModel::Branch(_, l, r) => seq![k] + depths(*l, k + 1) + depths(*r, k + 1),
    }
}

/// Every column but the last draws nothing or a vertical line; the last, if
/// any, opens a branch or closes one.
pub open spec fn one_open_level(cols: Seq<Column>) -> bool {
    &&& forall|j: int|
        0 <= j < cols.len() - 1 ==> (#[trigger] cols[j]).state == ColumnState::Empty
            || cols[j].state == ColumnState::Open
    &&& cols.len() > 0 ==> (cols.last().state == ColumnState::Start || cols.last().state
        == ColumnState::End)
}

proof fn lemma_child_columns(cols: Seq<Column>, label: Seq<char>, st: ColumnState)
    requires
        st == ColumnState::Start || st == ColumnState::End,
    ensures
        one_open_level(child_columns(cols, label, st)),
        child_columns(cols, label, st).len() == cols.len() + 1,
{
    let c = child_columns(cols, label, st);
    assert forall|j: int| 0 <= j < c.len() - 1 implies (#[trigger] c[j]).state
        == ColumnState::Empty || c[j].state == ColumnState::Open by {
        assert(c[j] == advance(cols[j]));
    }
}

proof fn lemma_rows(d: DiagramModel, cols: Seq<Column>)
    ensures
        rows(d, cols).len() == lines(d, cols).len(),
        rows(d, cols).len() == labels(d).len(),
        rows(d, cols).len() == depths(d, cols.len()).len(),
        forall|i: int|
            0 <= i < rows(d, cols).len() ==> {
                &&& (#[trigger] rows(d, cols)[i]).len() == depths(d, cols.len())[i]
                &&& lines(d, cols)[i] == prefix(rows(d, cols)[i]) + labels(d)[i]
                &&& one_open_level(cols) ==> one_open_level(rows(d, cols)[i])
            },
    decreases d,
{
    match d {
        DiagramModel::Leaf(_) => {},
        DiagramModel::Branch(label, l, r) => {
            let lc = child_columns(cols, label, ColumnState::Start);
            let rc = child_columns(cols, label, ColumnState::End);
            lemma_child_columns(cols, label, ColumnState::Start);
            lemma_child_columns(cols, label, ColumnState::End);
            lemma_rows(*l, lc);
            lemma_rows(*r, rc);
            let n = rows(*l, lc).len();
            assert forall|i: int| 0 <= i < rows(d, cols).len() implies {
                &&& (#[trigger] rows(d, cols)[i]).len() == depths(d, cols.len())[i]
                &&& lines(d, cols)[i] == prefix(rows(d, cols)[i]) + labels(d)[i]
                &&& one_open_level(cols) ==> one_open_level(rows(d, cols)[i])
            } by {
                if i == 0 {
                } else if i < 1 + n {
                    assert(rows(d, cols)[i] == rows(*l, lc)[i - 1]);
                    assert(lines(d, cols)[i] == lines(*l, lc)[i - 1]);
                    assert(labels(d)[i] == labels(*l)[i - 1]);
                    assert(depths(d, cols.len())[i] == depths(*l, lc.len())[i - 1]);
                } else {
                    assert(rows(d, cols)[i] == rows(*r, rc)[i - 1 - n]);
                    assert(lines(d, cols)[i] == lines(*r, rc)[i - 1 - n]);
                    assert(labels(d)[i] == labels(*r)[i - 1 - n]);
                    assert(depths(d, cols.len())[i] == depths(*r, rc.len())[i - 1 - n]);
                }
            }
        },
    }
}

/// The drawing of a tree has one line per node, in pre-order. Each line is its
/// node's label after as many columns as the node is deep; of those columns all
/// but the last draw nothing or a vertical line, and the last, that of the
/// parent, opens a branch (before the first child) or closes one (before the
/// second child).
pub proof fn lemma_column_per_level(d: DiagramModel)
    ensures
        lines(d, seq![]).len() == labels(d).len(),
        lines(d, seq![]).len() == depths(d, 0).len(),
        forall|i: int|
            0 <= i < lines(d, seq![]).len() ==> {
                &&& (#[trigger] rows(d, seq![])[i]).len() == depths(d, 0)[i]
                &&& lines(d, seq![])[i] == prefix(rows(d, seq![])[i]) + labels(d)[i]
                &&& one_open_level(rows(d, seq![])[i])
            },
{
    lemma_rows(d, seq![]);
    assert(Seq::<Column>::empty().len() == 0);
}

} // verus!
