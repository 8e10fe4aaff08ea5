//! Rendering a query as text with operators between their operands.
//!
//! The tokens are walked from the last stored to the first, over a stack of
//! rendered pieces. An operand is pushed. An operator takes its operands off
//! the stack and pushes their combination. One number is carried along, the
//! tier of the operator combined last: a two-operand combination is put in
//! parentheses where its own tier is higher than that number, unless its
//! operator is the last token walked. What is left on the stack is joined
//! with spaces.

use crate::pg_tsquery::{
    entry_views, weight_label, weight_to_string, Entry, EntryView, Operator, Operators, PgTsQuery,
    Value, ValueView,
};
use crate::text::{decimal, join, joined, push_decimal_i64, views};
use vstd::prelude::*;
use vstd::string::*;

verus! {

/// The stack of rendered pieces and the tier of the operator combined last.
pub struct RenderState {
    pub stack: Seq<Seq<char>>,
    pub priority: int,
}

/// The rendering tier of an operator.
pub open spec fn tier(op: Operators) -> int {
    match op {
        Operators::Not => 1,
        Operators::And => 2,
        Operators::Or => 3,
        Operators::Phrase => 4,
    }
}

/// What stands between the operands of a two-operand operator.
pub open spec fn connective(op: Operator) -> Seq<char> {
    match op.operator {
        Operators::Not => "!"@,
        Operators::And => "&"@,
        Operators::Or => "|"@,
        Operators::Phrase => match op.distance {
            None => "<->"@,
            Some(d) => if d == 1 {
                "<->"@
            } else {
                "<"@ + decimal(d as int) + ">"@
            },
        },
    }
}

/// An operand as text: quoted, then `:*` for a prefix match, else the rank
/// letters behind a colon where the weight has a label.
pub open spec fn operand_text(v: ValueView) -> Seq<char> {
    if v.prefix {
        "'"@ + v.text + "':*"@
    } else {
        match weight_label(v.weight) {
            Some(label) => "'"@ + v.text + "':"@ + label,
            None => "'"@ + v.text + "'"@,
        }
    }
}

/// Two operands around a connective, in parentheses where `wrap` says so.
pub open spec fn combined(left: Seq<char>, link: Seq<char>, right: Seq<char>, wrap: bool) -> Seq<
    char,
> {
    if wrap {
        "("@ + left + " "@ + link + " "@ + right + ")"@
    } else {
        left + " "@ + link + " "@ + right
    }
}

/// The state after one more token. `last` says that no token follows.
pub open spec fn render_step(st: RenderState, token: EntryView, last: bool) -> RenderState {
    match token {
        EntryView::Value(v) => RenderState {
            stack: st.stack.push(operand_text(v)),
            priority: st.priority,
        },
        EntryView::Operator(op) => {
            let n = st.stack.len() as int;
            if op.operator == Operators::Not {
                if n >= 1 {
                    RenderState { stack: st.stack.take(n - 1).push("!"@ + st.stack[n - 1]), priority: 1 }
                } else {
                    st
                }
            } else if n >= 2 {
                let wrap = tier(op.operator) > st.priority && !last;
                RenderState {
                    stack: st.stack.take(n - 2).push(
                        combined(st.stack[n - 2], connective(op), st.stack[n - 1], wrap),
                    ),
                    priority: tier(op.operator),
                }
            } else {
                RenderState { stack: Seq::empty(), priority: st.priority }
            }
        },
    }
}

/// The state after the last `k` tokens of `tokens`, walked from the end.
pub open spec fn render_run(tokens: Seq<EntryView>, k: nat) -> RenderState
    decreases k,
{
    if k == 0 || k > tokens.len() {
        RenderState { stack: Seq::empty(), priority: 0 }
    } else {
        render_step(render_run(tokens, (k - 1) as nat), tokens[tokens.len() - k], k == tokens.len())
    }
}

/// The text of a query.
pub open spec fn infix(tokens: Seq<EntryView>) -> Seq<char> {
    joined(render_run(tokens, tokens.len()).stack, " "@)
}

/// The text of an operand.
pub fn render_value(v: &Value) -> (r: String)
    ensures
        r@ == operand_text(v@),
{
    let mut out = String::from_str("'");
    out.append(v.text.as_str());
    if v.prefix {
        out.append("':*");
    } else {
        match weight_to_string(v.weight) {
            Some(label) => {
                out.append("':");
                out.append(label);
            },
            None => {
                out.append("'");
            },
        }
    }
    out
}

/// The connective of a phrase operator: `<->` for neighbours, `<N>` for a
/// distance `N` other than 1.
pub fn render_phrase_link(distance: Option<i16>) -> (r: String)
    ensures
        r@ == connective(Operator { operator: Operators::Phrase, distance }),
{
    match distance {
        None => String::from_str("<->"),
        Some(d) => {
            if d == 1 {
                String::from_str("<->")
            } else {
                let mut out = String::from_str("<");
                push_decimal_i64(&mut out, d as i64);
                out.append(">");
                out
            }
        },
    }
}

fn render_link(op: &Operator) -> (r: String)
    ensures
        r@ == connective(*op),
{
    match op.operator {
        Operators::Not => String::from_str("!"),
        Operators::And => String::from_str("&"),
        Operators::Or => String::from_str("|"),
        Operators::Phrase => render_phrase_link(op.distance),
    }
}

fn render_combined(left: &String, link: &String, right: &String, wrap: bool) -> (r: String)
    ensures
        r@ == combined(left@, link@, right@, wrap),
{
    let mut out = String::new();
    if wrap {
        out.append("(");
    }
    out.append(left.as_str());
    out.append(" ");
    out.append(link.as_str());
    out.append(" ");
    out.append(right.as_str());
    if wrap {
        out.append(")");
    }
    assert(out@ =~= combined(left@, link@, right@, wrap));
    out
}

fn tier_of(op: Operators) -> (t: u8)
    ensures
        t == tier(op),
{
    match op {
        Operators::Not => 1,
        Operators::And => 2,
        Operators::Or => 3,
        Operators::Phrase => 4,
    }
}

/// Renders the tokens, which are used up in the walk.
pub fn infix_string(entries: Vec<Entry>) -> (r: String)
    ensures
        r@ == infix(entry_views(entries@)),
{
    let mut entries = entries;
    let ghost tokens = entry_views(entries@);
    let len = entries.len();
    let mut stack: Vec<String> = Vec::new();
    let mut priority: u8 = 0;
    let mut num: usize = 0;
    while num < len
        invariant
            num <= len,
            len == tokens.len(),
            entries@.len() == len - num,
            entry_views(entries@) == tokens.take(len - num),
            views(stack@) == render_run(tokens, num as nat).stack,
            priority == render_run(tokens, num as nat).priority,
            0 <= priority <= 4,
        decreases len - num,
    {
        let ghost before = render_run(tokens, num as nat);
        let ghost token = tokens[len - num - 1];
        let ghost held = entries@;
        let last = num == len - 1;
        let popped = entries.pop();
        proof {
            assert(entry_views(held)[len - num - 1] == token);
            assert(entry_views(entries@) =~= tokens.take(len - num - 1));
        }
        match popped {
            Some(Entry::Value(v)) => {
                let piece = render_value(&v);
                stack.push(piece);
                proof {
                    assert(views(stack@) =~= before.stack.push(operand_text(v@)));
                }
            },
            Some(Entry::Operator(op)) => {
                let ghost pieces = stack@;
                let n = stack.len();
                if op.operator == Operators::Not {
                    match stack.pop() {
                        Some(operand) => {
                            let mut piece = String::from_str("!");
                            piece.append(operand.as_str());
                            stack.push(piece);
                            priority = 1;
                            proof {
                                assert(views(stack@) =~= before.stack.take(n - 1).push(
                                    "!"@ + before.stack[n - 1],
                                ));
                            }
                        },
                        None => {},
                    }
                } else {
                    let right = stack.pop();
                    let left = stack.pop();
                    match left {
                        Some(left) => {
                            match right {
                                Some(right) => {
                                    let t = tier_of(op.operator);
                                    let wrap = t > priority && !last;
                                    let link = render_link(&op);
                                    let piece = render_combined(&left, &link, &right, wrap);
                                    stack.push(piece);
                                    priority = t;
                                    proof {
                                        assert(views(stack@) =~= before.stack.take(n - 2).push(
                                            combined(
                                                before.stack[n - 2],
                                                connective(op),
                                                before.stack[n - 1],
                                                wrap,
                                            ),
                                        ));
                                    }
                                },
                                None => {},
                            }
                        },
                        None => {
                            proof {
                                assert(views(stack@) =~= Seq::<Seq<char>>::empty());
                            }
                        },
                    }
                }
            },
            None => {},
        }
        num = num + 1;
    }
    join(&stack, " ")
}

impl PgTsQuery {
    /// The query as text.
    pub fn to_string(&self) -> (r: String)
        ensures
            r@ == infix(self@),
    {
        let entries = self.entries.clone();
        assert(entry_views(entries@) =~= self@);
        infix_string(entries)
    }
}

/// A query without tokens renders as the empty text.
pub proof fn lemma_empty_query_renders_empty()
    ensures
        infix(Seq::<EntryView>::empty()) == Seq::<char>::empty(),
{
}

/// A prefix match renders as the quoted text and `:*`, whatever the weight.
pub proof fn lemma_prefix_hides_weight(v: ValueView)
    requires
        v.prefix,
    ensures
        operand_text(v) == seq!['\''] + v.text + seq!['\'', ':', '*'],
{
    reveal_strlit("'");
    reveal_strlit("':*");
    assert("'"@ =~= seq!['\'']);
    assert("':*"@ =~= seq!['\'', ':', '*']);
}

/// An operand that is no prefix match renders with its rank letters behind a
/// colon, or bare where its weight has no label.
pub proof fn lemma_weight_shown(v: ValueView)
    requires
        !v.prefix,
    ensures
        weight_label(v.weight) matches Some(label) ==> operand_text(v) == seq!['\''] + v.text
            + seq!['\'', ':'] + label,
        weight_label(v.weight) is None ==> operand_text(v) == seq!['\''] + v.text + seq!['\''],
{
    reveal_strlit("'");
    reveal_strlit("':");
    assert("'"@ =~= seq!['\'']);
    assert("':"@ =~= seq!['\'', ':']);
}

/// A phrase operator without a distance, or with distance 1, links its
/// operands with `<->`; with any other distance `N`, with `<N>`.
pub proof fn lemma_phrase_link(distance: Option<i16>)
    ensures
        connective(Operator { operator: Operators::Phrase, distance }) == (match distance {
            None => seq!['<', '-', '>'],
            Some(d) => if d == 1 {
                seq!['<', '-', '>']
            } else {
                seq!['<'] + decimal(d as int) + seq!['>']
            },
        }),
{
    reveal_strlit("<->");
    reveal_strlit("<");
    reveal_strlit(">");
    assert("<->"@ =~= seq!['<', '-', '>']);
    assert("<"@ =~= seq!['<']);
    assert(">"@ =~= seq!['>']);
}

/// A lone operand renders as itself.
pub proof fn lemma_lone_operand(v: ValueView)
    ensures
        infix(seq![EntryView::Value(v)]) == operand_text(v),
{
    let tokens = seq![EntryView::Value(v)];
    reveal_with_fuel(render_run, 2);
    assert(render_run(tokens, 1).stack =~= seq![operand_text(v)]);
}

/// `Not` in front of one operand renders as `!` and the operand.
pub proof fn lemma_negated_operand(distance: Option<i16>, v: ValueView)
    ensures
        infix(seq![EntryView::Operator(Operator { operator: Operators::Not, distance }), EntryView::Value(v)])
            == seq!['!'] + operand_text(v),
{
    let op = Operator { operator: Operators::Not, distance };
    let tokens = seq![EntryView::Operator(op), EntryView::Value(v)];
    reveal_with_fuel(render_run, 3);
    reveal_strlit("!");
    assert("!"@ =~= seq!['!']);
    assert(render_run(tokens, 1).stack =~= seq![operand_text(v)]);
    assert(render_run(tokens, 2).stack =~= seq![seq!['!'] + operand_text(v)]);
}

/// A two-operand operator in front of two operands renders as the operand
/// stored last, the connective and the operand stored first, with spaces
/// between and without parentheses: the outermost combination is never
/// wrapped.
pub proof fn lemma_single_combination(op: Operator, first: ValueView, second: ValueView)
    requires
        op.operator != Operators::Not,
    ensures
        infix(seq![EntryView::Operator(op), EntryView::Value(first), EntryView::Value(second)])
            == operand_text(second) + seq![' '] + connective(op) + seq![' '] + operand_text(
            first,
        ),
{
    let tokens = seq![EntryView::Operator(op), EntryView::Value(first), EntryView::Value(second)];
    reveal_with_fuel(render_run, 4);
    reveal_strlit(" ");
    assert(" "@ =~= seq![' ']);
    assert(render_run(tokens, 1).stack =~= seq![operand_text(second)]);
    assert(render_run(tokens, 2).stack =~= seq![operand_text(second), operand_text(first)]);
    assert(render_run(tokens, 3).stack =~= seq![
        combined(operand_text(second), connective(op), operand_text(first), false),
    ]);
}

} // verus!
