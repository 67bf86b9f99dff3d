//! How values are shown by `print`, `println` and `join`. A float is left as
//! its bit pattern for the caller to write out: the library does not format
//! floating-point numbers.
use vstd::prelude::*;
use crate::value::{Value, Val, view_seq, view_entries, lemma_view_seq, lemma_view_entries};
use crate::text::{text, decimal, decimal_text};

verus! {

/// A piece of shown text: literal text, or a float still to be written out.
pub enum Piece {
    Text(String),
    Float(u64),
}

/// The model of a piece.
pub enum Frag {
    Text(Seq<char>),
    Float(u64),
}

/// The models of some pieces.
pub open spec fn frags(ps: Seq<Piece>) -> Seq<Frag> {
    ps.map_values(
        |p: Piece|
            match p {
                Piece::Text(s) => Frag::Text(s@),
                Piece::Float(b) => Frag::Float(b),
            },
    )
}

/// How a value is shown.
pub open spec fn shown(v: Val) -> Seq<Frag>
    decreases v,
{
    match v {
        Val::Int(i) => seq![Frag::Text(decimal(i as int))],
        Val::Float(b) => seq![Frag::Float(b)],
        Val::Bool(b) => seq![Frag::Text(if b { "true"@ } else { "false"@ })],
        Val::Str(s) => seq![Frag::Text(s)],
        Val::Arr(x) => seq![Frag::Text("["@)] + shown_list(x) + seq![Frag::Text("]"@)],
        Val::Dict(d) => seq![Frag::Text("{"@)] + shown_entries(d) + seq![Frag::Text("}"@)],
        Val::SetOf(x) => seq![Frag::Text("{"@)] + shown_list(x) + seq![Frag::Text("}"@)],
        Val::Func(_, _) => seq![Frag::Text("<function>"@)],
        Val::Null => seq![Frag::Text("null"@)],
        Val::Break => seq![Frag::Text("break"@)],
        Val::Continue => seq![Frag::Text("continue"@)],
    }
}

/// Values shown one after another, separated by a comma and a space.
pub open spec fn shown_list(x: Seq<Val>) -> Seq<Frag>
    decreases x,
{
    if x.len() == 0 {
        Seq::empty()
    } else if x.len() == 1 {
        shown(x[0])
    } else {
        shown_list(x.drop_last()) + seq![Frag::Text(", "@)] + shown(x.last())
    }
}

/// Entries shown as `key: value`, separated by a comma and a space.
pub open spec fn shown_entries(d: Seq<(Val, Val)>) -> Seq<Frag>
    decreases d,
{
    if d.len() == 0 {
        Seq::empty()
    } else if d.len() == 1 {
        shown(d[0].0) + seq![Frag::Text(": "@)] + shown(d[0].1)
    } else {
        shown_entries(d.drop_last()) + seq![Frag::Text(", "@)] + shown(d.last().0) + seq![
            Frag::Text(": "@),
        ] + shown(d.last().1)
    }
}

/// Values shown one after another with nothing between them, as `join` does.
pub open spec fn shown_joined(x: Seq<Val>) -> Seq<Frag>
    decreases x.len(),
{
    if x.len() == 0 {
        Seq::empty()
    } else {
        shown_joined(x.drop_last()) + shown(x.last())
    }
}

fn push_text_piece(out: &mut Vec<Piece>, s: &str)
    ensures
        frags(final(out)@) == frags(old(out)@).push(Frag::Text(s@)),
{
    let ghost before = out@;
    out.push(Piece::Text(text(s)));
    assert(frags(out@) =~= frags(before).push(Frag::Text(s@)));
}

/// Appends how a value is shown.
pub fn show_value(v: &Value, out: &mut Vec<Piece>)
    ensures
        frags(final(out)@) == frags(old(out)@) + shown(v@),
    decreases v,
{
    let ghost before = frags(out@);
    match v {
        Value::Integer(i) => {
            let t = decimal_text(*i);
            out.push(Piece::Text(t));
            assert(frags(out@) =~= before + shown(v@));
        },
        Value::Float(b) => {
            out.push(Piece::Float(*b));
            assert(frags(out@) =~= before + shown(v@));
        },
        Value::Boolean(b) => {
            if *b {
                push_text_piece(out, "true");
            } else {
                push_text_piece(out, "false");
            }
            assert(frags(out@) =~= before + shown(v@));
        },
        Value::String(s) => {
            out.push(Piece::Text(s.clone()));
            assert(frags(out@) =~= before + shown(v@));
        },
        Value::Array(items) => {
            push_text_piece(out, "[");
            show_list(items, out);
            push_text_piece(out, "]");
            assert(frags(out@) =~= before + shown(v@));
        },
        Value::Dictionary(d) => {
            push_text_piece(out, "{");
            show_entries(&d.entries, out);
            push_text_piece(out, "}");
            assert(frags(out@) =~= before + shown(v@));
        },
        Value::SetValue(set) => {
            push_text_piece(out, "{");
            show_list(&set.items, out);
            push_text_piece(out, "}");
            assert(frags(out@) =~= before + shown(v@));
        },
        Value::Function(_, _) => {
            push_text_piece(out, "<function>");
            assert(frags(out@) =~= before + shown(v@));
        },
        Value::Null => {
            push_text_piece(out, "null");
            assert(frags(out@) =~= before + shown(v@));
        },
        Value::Break => {
            push_text_piece(out, "break");
            assert(frags(out@) =~= before + shown(v@));
        },
        Value::Continue => {
            push_text_piece(out, "continue");
            assert(frags(out@) =~= before + shown(v@));
        },
    }
}

/// Appends how some values are shown, separated by commas.
pub fn show_list(items: &Vec<Value>, out: &mut Vec<Piece>)
    ensures
        frags(final(out)@) == frags(old(out)@) + shown_list(view_seq(items@)),
    decreases items,
{
    proof {
        lemma_view_seq(items@);
    }
    let ghost x = view_seq(items@);
    let ghost start = frags(out@);
    let n = items.len();
    let mut i: usize = 0;
    while i < n
        invariant
            n == items.len(),
            i <= n,
            x == view_seq(items@),
            x.len() == n,
            forall|k: int| 0 <= k < items@.len() ==> #[trigger] x[k] == items@[k].model(),
            frags(out@) == start + shown_list(x.take(i as int)),
        decreases n - i,
    {
        proof {
            assert(x.take(i + 1).drop_last() =~= x.take(i as int));
            assert(x.take(i + 1).last() == x[i as int]);
        }
        if i > 0 {
            push_text_piece(out, ", ");
        }
        show_value(&items[i], out);
        proof {
            if i == 0 {
                assert(x.take(1) =~= seq![x[0]]);
                assert(shown_list(x.take(0)) =~= Seq::<Frag>::empty());
            }
            assert(frags(out@) =~= start + shown_list(x.take(i + 1)));
        }
        i = i + 1;
    }
    proof {
        assert(x.take(n as int) =~= x);
    }
}

/// Appends how some entries are shown, separated by commas.
pub fn show_entries(entries: &Vec<(Value, Value)>, out: &mut Vec<Piece>)
    ensures
        frags(final(out)@) == frags(old(out)@) + shown_entries(view_entries(entries@)),
    decreases entries,
{
    proof {
        lemma_view_entries(entries@);
    }
    let ghost x = view_entries(entries@);
    let ghost start = frags(out@);
    let n = entries.len();
    let mut i: usize = 0;
    while i < n
        invariant
            n == entries.len(),
            i <= n,
            x == view_entries(entries@),
            x.len() == n,
            forall|k: int|
                0 <= k < entries@.len() ==> #[trigger] x[k] == (
                    entries@[k].0.model(),
                    entries@[k].1.model(),
                ),
            frags(out@) == start + shown_entries(x.take(i as int)),
        decreases n - i,
    {
        proof {
            assert(x.take(i + 1).drop_last() =~= x.take(i as int));
            assert(x.take(i + 1).last() == x[i as int]);
        }
        if i > 0 {
            push_text_piece(out, ", ");
        }
        show_value(&entries[i].0, out);
        push_text_piece(out, ": ");
        show_value(&entries[i].1, out);
        proof {
            if i == 0 {
                assert(x.take(1) =~= seq![x[0]]);
                assert(shown_entries(x.take(0)) =~= Seq::<Frag>::empty());
            }
            assert(frags(out@) =~= start + shown_entries(x.take(i + 1)));
        }
        i = i + 1;
    }
    proof {
        assert(x.take(n as int) =~= x);
    }
}

/// How some values are shown one after another, as `join` does.
pub fn show_joined(items: &Vec<Value>) -> (r: Vec<Piece>)
    ensures
        frags(r@) == shown_joined(view_seq(items@)),
{
    proof {
        lemma_view_seq(items@);
    }
    let ghost x = view_seq(items@);
    let mut out: Vec<Piece> = Vec::new();
    let n = items.len();
    let mut i: usize = 0;
    proof {
        assert(frags(out@) =~= Seq::<Frag>::empty());
        assert(x.take(0) =~= Seq::<Val>::empty());
    }
    while i < n
        invariant
            n == items.len(),
            i <= n,
            x == view_seq(items@),
            x.len() == n,
            forall|k: int| 0 <= k < items@.len() ==> #[trigger] x[k] == items@[k].model(),
            frags(out@) == shown_joined(x.take(i as int)),
        decreases n - i,
    {
        proof {
            assert(x.take(i + 1).drop_last() =~= x.take(i as int));
        }
        show_value(&items[i], &mut out);
        i = i + 1;
    }
    proof {
        assert(x.take(n as int) =~= x);
    }
    out
}

/// How one value is shown, as `print` and `println` write it.
pub fn show(v: &Value) -> (r: Vec<Piece>)
    ensures
        frags(r@) == shown(v@),
{
    let mut out: Vec<Piece> = Vec::new();
    assert(frags(out@) =~= Seq::<Frag>::empty());
    show_value(v, &mut out);
    assert(frags(out@) =~= shown(v@));
    out
}

/// How values are shown: a boolean as `true` or `false`; `null`, `break`,
/// `continue` by name; a string as its own text; a function as `<function>`;
/// an array as its elements between `[` and `]`, separated by `, `; a
/// dictionary as `key: value` entries between `{` and `}`, separated by `, `;
/// a set as its elements between `{` and `}`. `join` puts nothing between the
/// shown elements.
pub proof fn law_shown(a: Val, b: Val, c: Val, s: Seq<char>)
    ensures
        shown(Val::Bool(true)) == seq![Frag::Text("true"@)],
        shown(Val::Bool(false)) == seq![Frag::Text("false"@)],
        shown(Val::Null) == seq![Frag::Text("null"@)],
        shown(Val::Break) == seq![Frag::Text("break"@)],
        shown(Val::Continue) == seq![Frag::Text("continue"@)],
        shown(Val::Str(s)) == seq![Frag::Text(s)],
        shown(Val::Arr(Seq::empty())) == seq![Frag::Text("["@), Frag::Text("]"@)],
        shown(Val::Arr(seq![a])) == seq![Frag::Text("["@)] + shown(a) + seq![Frag::Text("]"@)],
        shown(Val::Arr(seq![a, b, c])) == seq![Frag::Text("["@)] + shown(a) + seq![Frag::Text(", "@)]
            + shown(b) + seq![Frag::Text(", "@)] + shown(c) + seq![Frag::Text("]"@)],
        shown(Val::Dict(seq![(a, b)])) == seq![Frag::Text("{"@)] + shown(a) + seq![
            Frag::Text(": "@),
        ] + shown(b) + seq![Frag::Text("}"@)],
        shown(Val::Dict(seq![(a, b), (c, a)])) == seq![Frag::Text("{"@)] + shown(a) + seq![
            Frag::Text(": "@),
        ] + shown(b) + seq![Frag::Text(", "@)] + shown(c) + seq![Frag::Text(": "@)] + shown(a)
            + seq![Frag::Text("}"@)],
        shown(Val::SetOf(seq![a, b])) == seq![Frag::Text("{"@)] + shown(a) + seq![Frag::Text(", "@)]
            + shown(b) + seq![Frag::Text("}"@)],
        shown_joined(seq![a, b]) == shown(a) + shown(b),
{
    let x = seq![a, b, c];
    assert(x.drop_last() =~= seq![a, b]);
    assert(seq![a, b].drop_last() =~= seq![a]);
    let d = seq![(a, b), (c, a)];
    assert(d.drop_last() =~= seq![(a, b)]);
    assert(seq![a, b].drop_last() =~= seq![a]);
    assert(seq![a].drop_last() =~= Seq::<Val>::empty());
    assert(seq![a, b].len() == 2 && seq![a, b].last() == b && seq![a][0] == a);
    assert(shown_list(seq![a]) == shown(a));
    assert(shown_list(seq![a, b]) == shown(a) + seq![Frag::Text(", "@)] + shown(b));
    assert(seq![a].last() == a);
    assert(shown_joined(seq![a]) == shown_joined(Seq::<Val>::empty()) + shown(a));
    assert(shown_joined(seq![a]) =~= shown(a));
    assert(shown(Val::Arr(seq![a, b, c])) =~= seq![Frag::Text("["@)] + shown(a) + seq![
        Frag::Text(", "@),
    ] + shown(b) + seq![Frag::Text(", "@)] + shown(c) + seq![Frag::Text("]"@)]);
    assert(shown(Val::Arr(seq![a])) =~= seq![Frag::Text("["@)] + shown(a) + seq![Frag::Text("]"@)]);
    assert(shown(Val::Arr(Seq::empty())) =~= seq![Frag::Text("["@), Frag::Text("]"@)]);
    assert(shown(Val::Dict(seq![(a, b)])) =~= seq![Frag::Text("{"@)] + shown(a) + seq![
        Frag::Text(": "@),
    ] + shown(b) + seq![Frag::Text("}"@)]);
    assert(shown(Val::Dict(d)) =~= seq![Frag::Text("{"@)] + shown(a) + seq![Frag::Text(": "@)]
        + shown(b) + seq![Frag::Text(", "@)] + shown(c) + seq![Frag::Text(": "@)] + shown(a)
        + seq![Frag::Text("}"@)]);
    assert(shown(Val::SetOf(seq![a, b])) =~= seq![Frag::Text("{"@)] + shown(a) + seq![
        Frag::Text(", "@),
    ] + shown(b) + seq![Frag::Text("}"@)]);
}

} // verus!
