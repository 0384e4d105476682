//! Netlist elements, the element recognizer and the context builder.
use vstd::prelude::*;
use crate::lexer::{chars_of, tokenize, tokens_of, views_of};
use crate::scalar::{is_float, is_float_literal, net_of, parse_net};

verus! {

/// The magnitude of an element, kept as the literal that was written.
#[derive(Clone, Debug, PartialEq, Eq)]
pub enum SpiceSrc {
    /// Written after the `dc` keyword.
    DCValue(String),
    /// Written directly after the two nets.
    JustValue(String),
}

pub enum SrcModel {
    DCValue(Seq<char>),
    JustValue(Seq<char>),
}

impl View for SpiceSrc {
    type V = SrcModel;

    open spec fn view(&self) -> SrcModel {
        match self {
            SpiceSrc::DCValue(s) => SrcModel::DCValue(s@),
            SpiceSrc::JustValue(s) => SrcModel::JustValue(s@),
        }
    }
}

impl SpiceSrc {
    /// Whether the magnitude was declared with `dc`.
    pub fn is_dc(&self) -> (r: bool)
        ensures
            r == (self@ is DCValue),
    {
        match self {
            SpiceSrc::DCValue(_) => true,
            SpiceSrc::JustValue(_) => false,
        }
    }

    /// The literal of the magnitude.
    pub fn magnitude(&self) -> (r: &String)
        ensures
            r@ == match self@ {
                SrcModel::DCValue(s) => s,
                SrcModel::JustValue(s) => s,
            },
    {
        match self {
            SpiceSrc::DCValue(s) => s,
            SpiceSrc::JustValue(s) => s,
        }
    }
}

/// One element of a netlist: a name, the two nets it connects, a magnitude.
#[derive(Debug, PartialEq, Eq)]
pub struct SpiceLine {
    name: String,
    nets: Vec<u8>,
    value: SpiceSrc,
}

pub struct LineModel {
    pub name: Seq<char>,
    pub nets: Seq<u8>,
    pub value: SrcModel,
}

impl View for SpiceLine {
    type V = LineModel;

    closed spec fn view(&self) -> LineModel {
        LineModel { name: self.name@, nets: self.nets@, value: self.value@ }
    }
}

impl SpiceLine {
    #[verifier::type_invariant]
    spec fn two_nets(self) -> bool {
        self.nets@.len() == 2
    }

    /// A placeholder element, `v1` from net 1 to net 0 with `dc 1.0`, to be
    /// completed with the builder methods.
    pub fn new() -> (r: Self)
        ensures
            r@.name == seq!['v', '1'],
            r@.nets == seq![1u8, 0u8],
            r@.value == SrcModel::DCValue(seq!['1', '.', '0']),
    {
        proof {
            reveal_strlit("v1");
            reveal_strlit("1.0");
        }
        let name = String::from_str("v1");
        let magnitude = String::from_str("1.0");
        assert(magnitude@ == seq!['1', '.', '0']);
        SpiceLine { name, nets: vec![1u8, 0u8], value: SpiceSrc::DCValue(magnitude) }
    }

    pub fn name(self, name: &str) -> (r: Self)
        ensures
            r@ == (LineModel { name: name@, ..self@ }),
    {
        proof {
            use_type_invariant(&self);
        }
        SpiceLine { name: String::from_str(name), ..self }
    }

    pub fn nets(self, net1: u8, net2: u8) -> (r: Self)
        ensures
            r@ == (LineModel { nets: seq![net1, net2], ..self@ }),
    {
        SpiceLine { nets: vec![net1, net2], ..self }
    }

    pub fn value(self, value: SpiceSrc) -> (r: Self)
        ensures
            r@ == (LineModel { value: value@, ..self@ }),
    {
        proof {
            use_type_invariant(&self);
        }
        SpiceLine { value, ..self }
    }

    pub fn get_name(&self) -> (r: &String)
        ensures
            r@ == self@.name,
    {
        &self.name
    }

    pub fn get_nets(&self) -> (r: &Vec<u8>)
        ensures
            r@ == self@.nets,
            r@.len() == 2,
    {
        proof {
            use_type_invariant(self);
        }
        &self.nets
    }

    pub fn get_value(&self) -> (r: &SpiceSrc)
        ensures
            r@ == self@.value,
    {
        &self.value
    }
}

/// Which field of an element failed to read.
#[derive(Clone, Copy, Debug, PartialEq, Eq, Structural)]
pub enum FieldKind {
    Net1,
    Net2,
    Value,
}

/// Why recognition stopped.
#[derive(Clone, Debug, PartialEq, Eq)]
pub enum ParseError {
    /// A token that should be a net index or a magnitude does not read as one.
    FieldFormat { field: FieldKind, token: String },
    /// The tokens ran out in the middle of an element.
    MalformedTail { tokens_remaining: usize },
    /// Kept for keywords to come; the current grammar never raises it.
    UnexpectedToken { position: usize, token: String },
}

pub enum ErrorModel {
    FieldFormat { field: FieldKind, token: Seq<char> },
    MalformedTail { tokens_remaining: nat },
    UnexpectedToken { position: nat, token: Seq<char> },
}

impl View for ParseError {
    type V = ErrorModel;

    open spec fn view(&self) -> ErrorModel {
        match self {
            ParseError::FieldFormat { field, token } => ErrorModel::FieldFormat {
                field: *field,
                token: token@,
            },
            ParseError::MalformedTail { tokens_remaining } => ErrorModel::MalformedTail {
                tokens_remaining: *tokens_remaining as nat,
            },
            ParseError::UnexpectedToken { position, token } => ErrorModel::UnexpectedToken {
                position: *position as nat,
                token: token@,
            },
        }
    }
}

pub open spec fn end_word() -> Seq<char> {
    seq!['e', 'n', 'd']
}

pub open spec fn dc_word() -> Seq<char> {
    seq!['d', 'c']
}

/// What the recognizer makes of the tokens in front of it.
pub enum Step {
    /// No token is left.
    EndOfStream,
    /// The terminator `end`, one token.
    Terminator,
    /// An element, and the number of tokens it takes.
    Element(LineModel, nat),
    Failure(ErrorModel),
}

/// Recognition of one element at the front of `toks`.
pub open spec fn recognize(toks: Seq<Seq<char>>) -> Step {
    if toks.len() < 4 {
        if toks.len() == 0 {
            Step::EndOfStream
        } else if toks[0] == end_word() {
            Step::Terminator
        } else {
            Step::Failure(ErrorModel::MalformedTail { tokens_remaining: toks.len() })
        }
    } else if net_of(toks[1]) is None {
        Step::Failure(ErrorModel::FieldFormat { field: FieldKind::Net1, token: toks[1] })
    } else if net_of(toks[2]) is None {
        Step::Failure(ErrorModel::FieldFormat { field: FieldKind::Net2, token: toks[2] })
    } else if toks[3] == dc_word() {
        if toks.len() < 5 {
            Step::Failure(ErrorModel::MalformedTail { tokens_remaining: toks.len() })
        } else if !is_float_literal(toks[4]) {
            Step::Failure(ErrorModel::FieldFormat { field: FieldKind::Value, token: toks[4] })
        } else {
            Step::Element(
                LineModel {
                    name: toks[0],
                    nets: seq![net_of(toks[1])->0, net_of(toks[2])->0],
                    value: SrcModel::DCValue(toks[4]),
                },
                5,
            )
        }
    } else if !is_float_literal(toks[3]) {
        Step::Failure(ErrorModel::FieldFormat { field: FieldKind::Value, token: toks[3] })
    } else {
        Step::Element(
            LineModel {
                name: toks[0],
                nets: seq![net_of(toks[1])->0, net_of(toks[2])->0],
                value: SrcModel::JustValue(toks[3]),
            },
            4,
        )
    }
}

/// The result of driving the recognizer over a token sequence.
pub struct Outcome {
    pub elements: Seq<LineModel>,
    pub finalized: bool,
    pub error: Option<ErrorModel>,
}

/// Recognizes elements from the front of `toks` until the tokens run out,
/// the terminator is taken, or recognition fails.
pub open spec fn parse_tokens(toks: Seq<Seq<char>>) -> Outcome
    decreases toks.len(),
{
    match recognize(toks) {
        Step::EndOfStream => Outcome { elements: Seq::empty(), finalized: false, error: None },
        Step::Terminator => Outcome { elements: Seq::empty(), finalized: true, error: None },
        Step::Failure(e) => Outcome { elements: Seq::empty(), finalized: false, error: Some(e) },
        Step::Element(line, width) => if 0 < width <= toks.len() {
            let rest = parse_tokens(toks.skip(width as int));
            Outcome { elements: seq![line] + rest.elements, ..rest }
        } else {
            Outcome { elements: Seq::empty(), finalized: false, error: None }
        },
    }
}

/// The elements recognized so far, and whether the terminator was taken.
pub struct ContextModel {
    pub elements: Seq<LineModel>,
    pub finalized: bool,
}

/// A context after driving the recognizer over `toks`; a finalized context
/// takes nothing more.
pub open spec fn after_tokens(m: ContextModel, toks: Seq<Seq<char>>) -> ContextModel {
    if m.finalized {
        m
    } else {
        ContextModel {
            elements: m.elements + parse_tokens(toks).elements,
            finalized: parse_tokens(toks).finalized,
        }
    }
}

/// The error with which driving a context over `toks` stops, if any.
pub open spec fn error_after_tokens(m: ContextModel, toks: Seq<Seq<char>>) -> Option<
    ErrorModel,
> {
    if m.finalized {
        None
    } else {
        parse_tokens(toks).error
    }
}

/// `r` reports `e`: `Ok` where there is none, the same error where there is.
pub open spec fn reports(r: Result<(), ParseError>, e: Option<ErrorModel>) -> bool {
    match e {
        None => r is Ok,
        Some(m) => r is Err && r->Err_0@ == m,
    }
}

/// The parse of a netlist: its elements in order, and whether it was
/// terminated.
#[derive(Debug)]
pub struct SpiceContext {
    line: Vec<SpiceLine>,
    finalized: bool,
}

impl View for SpiceContext {
    type V = ContextModel;

    closed spec fn view(&self) -> ContextModel {
        ContextModel {
            elements: self.line@.map_values(|l: SpiceLine| l@),
            finalized: self.finalized,
        }
    }
}

/// Whether `k` names the keyword `w`.
fn is_keyword(k: &Vec<char>, w: &Vec<char>) -> (r: bool)
    ensures
        r == (k@ == w@),
{
    if k.len() != w.len() {
        return false;
    }
    let mut i: usize = 0;
    while i < k.len()
        invariant
            k@.len() == w@.len(),
            i <= k@.len(),
            forall|j: int| 0 <= j < i ==> k@[j] == w@[j],
        decreases k@.len() - i,
    {
        if k[i] != w[i] {
            return false;
        }
        i = i + 1;
    }
    assert(k@ == w@);
    true
}

impl SpiceContext {
    /// An empty context, not finalized.
    pub fn new() -> (r: Self)
        ensures
            r@.elements == Seq::<LineModel>::empty(),
            !r@.finalized,
    {
        let r = SpiceContext { line: Vec::new(), finalized: false };
        assert(r@.elements == Seq::<LineModel>::empty());
        r
    }

    pub fn elements(&self) -> (r: &Vec<SpiceLine>)
        ensures
            r@.map_values(|l: SpiceLine| l@) == self@.elements,
    {
        &self.line
    }

    pub fn is_finalized(&self) -> (r: bool)
        ensures
            r == self@.finalized,
    {
        self.finalized
    }

    /// Recognizes one element at `tokens[start..]`: on success adds it (or,
    /// for `end`, finalizes the context) and returns how many tokens it took;
    /// 0 when no token is left.
    pub fn from_tokens(&mut self, tokens: &Vec<String>, start: usize) -> (r: Result<
        usize,
        ParseError,
    >)
        requires
            start <= tokens@.len(),
        ensures
            match recognize(views_of(tokens@).skip(start as int)) {
                Step::EndOfStream => r == Ok::<usize, ParseError>(0) && final(self)@ == old(
                    self,
                )@,
                Step::Terminator => r == Ok::<usize, ParseError>(1) && final(self)@ == (
                ContextModel { finalized: true, ..old(self)@ }),
                Step::Element(line, width) => r == Ok::<usize, ParseError>(width as usize)
                    && final(self)@ == (ContextModel {
                    elements: old(self)@.elements.push(line),
                    ..old(self)@
                }),
                Step::Failure(e) => r is Err && r->Err_0@ == e && final(self)@ == old(self)@,
            },
            r matches Ok(n) && n > 1 ==> final(self)@.elements.len() == old(self)@.elements.len()
                + 1,
    {
        let ghost toks = views_of(tokens@).skip(start as int);
        assert(forall|k: int| 0 <= k < toks.len() ==> #[trigger] toks[k] == tokens@[start + k]@);
        let remaining = tokens.len() - start;
        if remaining < 4 {
            if remaining == 0 {
                return Ok(0);
            }
            let first = chars_of(tokens[start].as_str());
            if is_keyword(&first, &vec!['e', 'n', 'd']) {
                self.finalized = true;
                return Ok(1);
            }
            return Err(ParseError::MalformedTail { tokens_remaining: remaining });
        }
        let net1 = match parse_net(&chars_of(tokens[start + 1].as_str())) {
            Some(n) => n,
            None => {
                return Err(
                    ParseError::FieldFormat { field: FieldKind::Net1, token: tokens[start + 1].clone() },
                );
            },
        };
        let net2 = match parse_net(&chars_of(tokens[start + 2].as_str())) {
            Some(n) => n,
            None => {
                return Err(
                    ParseError::FieldFormat { field: FieldKind::Net2, token: tokens[start + 2].clone() },
                );
            },
        };
        let width: usize;
        let value: SpiceSrc;
        if is_keyword(&chars_of(tokens[start + 3].as_str()), &vec!['d', 'c']) {
            if remaining < 5 {
                return Err(ParseError::MalformedTail { tokens_remaining: remaining });
            }
            if !is_float(&chars_of(tokens[start + 4].as_str())) {
                return Err(
                    ParseError::FieldFormat { field: FieldKind::Value, token: tokens[start + 4].clone() },
                );
            }
            width = 5;
            value = SpiceSrc::DCValue(tokens[start + 4].clone());
        } else {
            if !is_float(&chars_of(tokens[start + 3].as_str())) {
                return Err(
                    ParseError::FieldFormat { field: FieldKind::Value, token: tokens[start + 3].clone() },
                );
            }
            width = 4;
            value = SpiceSrc::JustValue(tokens[start + 3].clone());
        }
        let line = SpiceLine { name: tokens[start].clone(), nets: vec![net1, net2], value };
        self.add_line(line);
        Ok(width)
    }

    /// Drives the recognizer over `tokens` from the first one, adding each
    /// element in order, until the tokens run out, `end` is taken or an
    /// element fails; the elements before a failure stay. A finalized context
    /// is left as it is.
    pub fn add_tokens(&mut self, tokens: &Vec<String>) -> (r: Result<(), ParseError>)
        ensures
            final(self)@ == after_tokens(old(self)@, views_of(tokens@)),
            reports(r, error_after_tokens(old(self)@, views_of(tokens@))),
    {
        if self.finalized {
            return Ok(());
        }
        let ghost toks = views_of(tokens@);
        let ghost base = self@.elements;
        let ghost whole = parse_tokens(toks);
        let total = tokens.len();
        let mut idx: usize = 0;
        assert(toks.skip(0) == toks);
        loop
            invariant
                idx <= tokens@.len(),
                total == tokens@.len(),
                toks == views_of(tokens@),
                whole == parse_tokens(toks),
                base == old(self)@.elements,
                !old(self)@.finalized,
                !self@.finalized,
                self@.elements + parse_tokens(toks.skip(idx as int)).elements == base
                    + whole.elements,
                parse_tokens(toks.skip(idx as int)).finalized == whole.finalized,
                parse_tokens(toks.skip(idx as int)).error == whole.error,
            decreases tokens@.len() - idx,
        {
            let ghost before = self@.elements;
            let ghost rest = toks.skip(idx as int);
            match self.from_tokens(tokens, idx) {
                Ok(n) => {
                    if n <= 1 {
                        assert(recognize(rest) is EndOfStream || recognize(rest) is Terminator);
                        assert(parse_tokens(rest).elements == Seq::<LineModel>::empty());
                        assert(base + whole.elements == self@.elements);
                        assert(self@.finalized == whole.finalized);
                        return Ok(());
                    }
                    assert(recognize(rest) is Element);
                    assert(rest.len() == tokens@.len() - idx);
                    assert(n <= rest.len());
                    assert(rest.skip(n as int) == toks.skip(idx + n));
                    assert(self@.elements + parse_tokens(toks.skip(idx + n)).elements == before
                        + parse_tokens(rest).elements);
                    idx = idx + n;
                },
                Err(e) => {
                    assert(base + whole.elements == self@.elements);
                    return Err(e);
                },
            }
        }
    }

    /// Splits `text` into tokens and drives the recognizer over them.
    pub fn add_text(&mut self, text: &str) -> (r: Result<(), ParseError>)
        ensures
            final(self)@ == after_tokens(old(self)@, tokens_of(text@)),
            reports(r, error_after_tokens(old(self)@, tokens_of(text@))),
    {
        let tokens = tokenize(text);
        self.add_tokens(&tokens)
    }

    /// `self` with the netlist `lines` added; where an element fails, the
    /// elements before it are kept and the rest is dropped.
    pub fn add_multiple(self, lines: String) -> (r: Self)
        ensures
            r@ == after_tokens(self@, tokens_of(lines@)),
    {
        let mut ctx = self;
        let _ = ctx.add_text(lines.as_str());
        ctx
    }

    /// The context of the netlist `text`, with the error that stopped it, if
    /// any.
    pub fn parse(text: &str) -> (r: (Self, Result<(), ParseError>))
        ensures
            r.0@.elements == parse_tokens(tokens_of(text@)).elements,
            r.0@.finalized == parse_tokens(tokens_of(text@)).finalized,
            reports(r.1, parse_tokens(tokens_of(text@)).error),
    {
        let mut ctx = SpiceContext::new();
        let r = ctx.add_text(text);
        assert(Seq::<LineModel>::empty() + parse_tokens(tokens_of(text@)).elements
            == parse_tokens(tokens_of(text@)).elements);
        (ctx, r)
    }

    fn add_line(&mut self, line: SpiceLine)
        ensures
            final(self)@ == (ContextModel {
                elements: old(self)@.elements.push(line@),
                ..old(self)@
            }),
    {
        self.line.push(line);
        assert(self@.elements == old(self)@.elements.push(line@));
    }
}

} // verus!
