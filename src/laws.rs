//! Properties of netlist recognition, stated over the token model.
use vstd::prelude::*;
use crate::netlist::{
    dc_word, end_word, parse_tokens, recognize, ErrorModel, FieldKind, LineModel, Outcome, Step,
};
use crate::scalar::{is_float_literal, net_of};

verus! {

/// Every recognized element connects exactly two nets.
pub proof fn lemma_elements_have_two_nets(toks: Seq<Seq<char>>)
    ensures
        forall|i: int|
            0 <= i < parse_tokens(toks).elements.len() ==> (
            #[trigger] parse_tokens(toks).elements[i]).nets.len() == 2,
    decreases toks.len(),
{
    if let Step::Element(line, width) = recognize(toks) {
        if 0 < width <= toks.len() {
            lemma_elements_have_two_nets(toks.skip(width as int));
            let rest = parse_tokens(toks.skip(width as int)).elements;
            assert forall|i: int| 0 <= i < parse_tokens(toks).elements.len() implies (
            #[trigger] parse_tokens(toks).elements[i]).nets.len() == 2 by {
                if i > 0 {
                    assert(parse_tokens(toks).elements[i] == rest[i - 1]);
                }
            }
        }
    }
}

/// A finalized parse has taken the token `end` somewhere in its input.
pub proof fn lemma_finalized_saw_end(toks: Seq<Seq<char>>)
    ensures
        parse_tokens(toks).finalized ==> exists|k: int|
            0 <= k < toks.len() && #[trigger] toks[k] == end_word(),
    decreases toks.len(),
{
    match recognize(toks) {
        Step::Terminator => {
            assert(toks[0] == end_word());
        },
        Step::Element(line, width) => {
            if 0 < width <= toks.len() {
                let rest = toks.skip(width as int);
                lemma_finalized_saw_end(rest);
                if parse_tokens(toks).finalized {
                    let k = choose|k: int| 0 <= k < rest.len() && #[trigger] rest[k] == end_word();
                    assert(toks[k + width] == end_word());
                }
            }
        },
        _ => {},
    }
}

/// The offsets at which the recognized elements of `toks` start.
pub open spec fn element_starts(toks: Seq<Seq<char>>) -> Seq<int>
    decreases toks.len(),
{
    match recognize(toks) {
        Step::Element(line, width) => if 0 < width <= toks.len() {
            seq![0int] + element_starts(toks.skip(width as int)).map_values(
                |o: int| o + width,
            )
        } else {
            Seq::empty()
        },
        _ => Seq::empty(),
    }
}

/// What `lemma_elements_in_source_order` states, for the offsets of
/// `element_starts`.
pub open spec fn starts_fit(toks: Seq<Seq<char>>, st: Seq<int>) -> bool {
    let els = parse_tokens(toks).elements;
    &&& st.len() == els.len()
    &&& els.len() > 0 ==> st[0] == 0
    &&& forall|i: int|
        0 <= i < els.len() ==> {
            &&& 0 <= #[trigger] st[i] < toks.len()
            &&& recognize(toks.skip(st[i])) is Element
            &&& recognize(toks.skip(st[i]))->Element_0 == els[i]
            &&& i + 1 < els.len() ==> st[i + 1] == st[i] + recognize(toks.skip(st[i]))->Element_1
        }
}

proof fn lemma_starts_fit(toks: Seq<Seq<char>>)
    ensures
        starts_fit(toks, element_starts(toks)),
    decreases toks.len(),
{
    let els = parse_tokens(toks).elements;
    let st = element_starts(toks);
    if let Step::Element(line, width) = recognize(toks) {
        if 0 < width <= toks.len() {
            let rest = toks.skip(width as int);
            let rst = element_starts(rest);
            lemma_starts_fit(rest);
            assert(toks.skip(0) == toks);
            assert forall|i: int| 0 <= i < els.len() implies {
                &&& 0 <= #[trigger] st[i] < toks.len()
                &&& recognize(toks.skip(st[i])) is Element
                &&& recognize(toks.skip(st[i]))->Element_0 == els[i]
                &&& i + 1 < els.len() ==> st[i + 1] == st[i] + recognize(
                    toks.skip(st[i]),
                )->Element_1
            } by {
                if i > 0 {
                    assert(st[i] == rst[i - 1] + width);
                    assert(toks.skip(st[i]) == rest.skip(rst[i - 1]));
                    assert(els[i] == parse_tokens(rest).elements[i - 1]);
                    if i + 1 < els.len() {
                        assert(st[i + 1] == rst[i] + width);
                    }
                } else if i + 1 < els.len() {
                    assert(rst[0] == 0);
                    assert(st[1] == rst[0] + width);
                }
            }
        }
    }
}

/// The elements come in source order: the first starts at the first token,
/// element `i` is what the recognizer reads at its offset, and the next one
/// starts right after the tokens it took.
pub proof fn lemma_elements_in_source_order(toks: Seq<Seq<char>>)
    ensures
        exists|st: Seq<int>| #[trigger] starts_fit(toks, st),
{
    lemma_starts_fit(toks);
}

/// A parse that ran out of tokens cleanly: no error, no `end`.
pub open spec fn is_open_clean(toks: Seq<Seq<char>>) -> bool {
    parse_tokens(toks).error is None && !parse_tokens(toks).finalized
}

/// After a token sequence that parses cleanly and stays open, the
/// recognizer picks up where it stopped: the elements of `a` come first, and
/// what follows is the parse of `b` on its own.
pub proof fn lemma_parse_concat(a: Seq<Seq<char>>, b: Seq<Seq<char>>)
    requires
        is_open_clean(a),
    ensures
        parse_tokens(a + b) == (Outcome {
            elements: parse_tokens(a).elements + parse_tokens(b).elements,
            ..parse_tokens(b)
        }),
    decreases a.len(),
{
    let pa = parse_tokens(a);
    let pb = parse_tokens(b);
    if a.len() == 0 {
        assert(a + b == b);
        assert(pa.elements + pb.elements == pb.elements);
    } else {
        let step = recognize(a);
        assert(step is Element);
        let width = step->Element_1;
        assert(forall|k: int| 0 <= k < a.len() ==> #[trigger] (a + b)[k] == a[k]);
        assert(recognize(a + b) == step);
        let rest = a.skip(width as int);
        assert((a + b).skip(width as int) == rest + b);
        lemma_parse_concat(rest, b);
        let pr = parse_tokens(rest);
        assert(seq![step->Element_0] + (pr.elements + pb.elements) == (seq![step->Element_0]
            + pr.elements) + pb.elements);
    }
}

/// An `end` after a netlist that parsed cleanly finalizes it and keeps its
/// elements.
pub proof fn lemma_trailing_end_finalizes(a: Seq<Seq<char>>)
    requires
        is_open_clean(a),
    ensures
        parse_tokens(a.push(end_word())) == (Outcome {
            elements: parse_tokens(a).elements,
            finalized: true,
            error: None,
        }),
{
    let b = seq![end_word()];
    assert(a.push(end_word()) == a + b);
    lemma_parse_concat(a, b);
    assert(recognize(b) is Terminator);
    assert(parse_tokens(a).elements + Seq::<LineModel>::empty() == parse_tokens(a).elements);
}

/// One to three tokens, none of them `end`, are a malformed tail, and
/// nothing is recognized.
pub proof fn lemma_short_input_is_malformed_tail(toks: Seq<Seq<char>>)
    requires
        0 < toks.len() < 4,
        forall|i: int| 0 <= i < toks.len() ==> #[trigger] toks[i] != end_word(),
    ensures
        parse_tokens(toks) == (Outcome {
            elements: Seq::empty(),
            finalized: false,
            error: Some(ErrorModel::MalformedTail { tokens_remaining: toks.len() }),
        }),
{
    assert(toks[0] != end_word());
}

/// An element whose magnitude does not read as a number stops the parse with
/// a field-format error on that token; the elements before it are kept.
pub proof fn lemma_bad_value_keeps_prior(
    a: Seq<Seq<char>>,
    name: Seq<char>,
    net1: Seq<char>,
    net2: Seq<char>,
    value: Seq<char>,
)
    requires
        is_open_clean(a),
        net_of(net1) is Some,
        net_of(net2) is Some,
        value != dc_word(),
        !is_float_literal(value),
    ensures
        parse_tokens(a + seq![name, net1, net2, value]) == (Outcome {
            elements: parse_tokens(a).elements,
            finalized: false,
            error: Some(ErrorModel::FieldFormat { field: FieldKind::Value, token: value }),
        }),
{
    let b = seq![name, net1, net2, value];
    lemma_parse_concat(a, b);
    assert(parse_tokens(a).elements + Seq::<LineModel>::empty() == parse_tokens(a).elements);
}

} // verus!
