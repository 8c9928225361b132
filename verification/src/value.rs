//! The typed values of the filter-clause expression grammar: comparison
//! operators, the closed constant vocabulary, coercible values, and the
//! operator-value pairs and combinators built from them.

use vstd::prelude::*;

use crate::text::{
    chars_of, join_sep, join_with, oxford, oxford_spec, parse_u64, parse_u64_spec, push_u64,
    split_on, split_sep, string_of, tokenize, trim, trim_spec, u64_digits, ws_tokens,
};
use crate::decimal::{dec_display, parse_float, parse_float_spec, Decimal};
use crate::ParseError;

verus! {

/// A comparison operator of the filter-clause grammar.
#[derive(Debug, PartialEq, Eq, Structural, Clone, Copy, Hash)]
pub enum Operator {
    EqualTo,
    NotEqualTo,
    GreaterThan,
    GreaterThanEqualTo,
    LessThan,
    LessThanEqualTo,
}

/// The canonical text of an operator.
pub open spec fn op_text(op: Operator) -> Seq<char> {
    match op {
        Operator::EqualTo => "="@,
        Operator::NotEqualTo => "!"@,
        Operator::GreaterThan => ">"@,
        Operator::GreaterThanEqualTo => ">="@,
        Operator::LessThan => "<"@,
        Operator::LessThanEqualTo => "<="@,
    }
}

/// The operator a token denotes, if any.
pub open spec fn parse_op_spec(s: Seq<char>) -> Option<Operator> {
    if s == "="@ {
        Some(Operator::EqualTo)
    } else if s == "!"@ {
        Some(Operator::NotEqualTo)
    } else if s == ">"@ {
        Some(Operator::GreaterThan)
    } else if s == ">="@ {
        Some(Operator::GreaterThanEqualTo)
    } else if s == "<"@ {
        Some(Operator::LessThan)
    } else if s == "<="@ {
        Some(Operator::LessThanEqualTo)
    } else {
        None
    }
}

proof fn reveal_op_literals()
    ensures
        "="@ =~= seq!['='],
        "!"@ =~= seq!['!'],
        ">"@ =~= seq!['>'],
        ">="@ =~= seq!['>', '='],
        "<"@ =~= seq!['<'],
        "<="@ =~= seq!['<', '='],
{
    reveal_strlit("=");
    reveal_strlit("!");
    reveal_strlit(">");
    reveal_strlit(">=");
    reveal_strlit("<");
    reveal_strlit("<=");
}

impl Operator {
    /// Parses a single already-isolated operator token.
    pub fn parse_token(t: &[char]) -> (r: Option<Operator>)
        ensures
            r == parse_op_spec(t@),
    {
        proof {
            reveal_op_literals();
        }
        if t.len() == 1 {
            let c = t[0];
            let r = if c == '=' {
                Some(Operator::EqualTo)
            } else if c == '!' {
                Some(Operator::NotEqualTo)
            } else if c == '>' {
                Some(Operator::GreaterThan)
            } else if c == '<' {
                Some(Operator::LessThan)
            } else {
                None
            };
            proof {
                assert(t@ =~= seq![t@[0]]);
            }
            r
        } else if t.len() == 2 {
            let r = if t[0] == '>' && t[1] == '=' {
                Some(Operator::GreaterThanEqualTo)
            } else if t[0] == '<' && t[1] == '=' {
                Some(Operator::LessThanEqualTo)
            } else {
                None
            };
            proof {
                assert(t@ =~= seq![t@[0], t@[1]]);
            }
            r
        } else {
            None
        }
    }

    /// Appends the canonical text of this operator to `out`.
    pub fn push_text(&self, out: &mut Vec<char>)
        ensures
            final(out)@ == old(out)@ + op_text(*self),
    {
        proof {
            reveal_op_literals();
        }
        match self {
            Operator::EqualTo => out.push('='),
            Operator::NotEqualTo => out.push('!'),
            Operator::GreaterThan => out.push('>'),
            Operator::GreaterThanEqualTo => {
                out.push('>');
                out.push('=');
            },
            Operator::LessThan => out.push('<'),
            Operator::LessThanEqualTo => {
                out.push('<');
                out.push('=');
            },
        }
        proof {
            assert(out@ =~= old(out)@ + op_text(*self));
        }
    }

    /// The canonical text of this operator.
    pub fn to_text(&self) -> (r: String)
        ensures
            r@ == op_text(*self),
    {
        let mut out: Vec<char> = Vec::new();
        self.push_text(&mut out);
        string_of(&out)
    }
}

/// The closed vocabulary of named constants.
#[derive(Debug, PartialEq, Eq, Structural, Clone, Copy, Hash)]
pub enum Constant {
    GraduationYear,
}

/// The constant a string denotes: its trimmed text must be in the closed
/// vocabulary, else the parse fails with `UnknownCommand`.
pub open spec fn parse_constant_spec(s: Seq<char>) -> Result<Constant, ParseError> {
    if trim_spec(s) == "graduation-year"@ {
        Ok(Constant::GraduationYear)
    } else {
        Err(ParseError::UnknownCommand)
    }
}

/// The canonical text of a constant.
pub open spec fn constant_text(c: Constant) -> Seq<char> {
    "graduation-year"@
}

/// True when `a` and `b` hold the same characters.
pub fn chars_eq(a: &[char], b: &[char]) -> (r: bool)
    ensures
        r == (a@ == b@),
{
    if a.len() != b.len() {
        return false;
    }
    let mut i: usize = 0;
    while i < a.len()
        invariant
            i <= a@.len(),
            a@.len() == b@.len(),
            forall|j: int| 0 <= j < i ==> a@[j] == b@[j],
        decreases a@.len() - i,
    {
        if a[i] != b[i] {
            return false;
        }
        i += 1;
    }
    proof {
        assert(a@ =~= b@);
    }
    true
}

impl Constant {
    /// Parses the trimmed text of `s` against the constant vocabulary.
    pub fn parse_chars(s: &[char]) -> (r: Result<Constant, ParseError>)
        ensures
            r == parse_constant_spec(s@),
    {
        let t = trim(s);
        let gy = chars_of("graduation-year");
        if chars_eq(t.as_slice(), gy.as_slice()) {
            Ok(Constant::GraduationYear)
        } else {
            Err(ParseError::UnknownCommand)
        }
    }

    /// The canonical text of this constant.
    pub fn to_text(&self) -> (r: String)
        ensures
            r@ == constant_text(*self),
    {
        let s = chars_of("graduation-year");
        string_of(&s)
    }
}

} // verus!

verus! {

/// A typed value of the filter grammar. A fractional number is carried as
/// the library's own normalized [`Decimal`].
#[derive(Debug, PartialEq, Clone)]
pub enum Value {
    Constant(Constant),
    Bool(bool),
    Integer(u64),
    Float(Decimal),
    String(String),
}

/// The mathematical shape of a [`Value`].
pub enum ValueView {
    Constant(Constant),
    Bool(bool),
    Integer(u64),
    Float(Decimal),
    String(Seq<char>),
}

impl View for Value {
    type V = ValueView;

    open spec fn view(&self) -> ValueView {
        match self {
            Value::Constant(c) => ValueView::Constant(*c),
            Value::Bool(b) => ValueView::Bool(*b),
            Value::Integer(n) => ValueView::Integer(*n),
            Value::Float(d) => ValueView::Float(*d),
            Value::String(s) => ValueView::String(s@),
        }
    }
}

impl DeepView for Value {
    type V = ValueView;

    open spec fn deep_view(&self) -> ValueView {
        self.view()
    }
}

/// The value a string denotes. Coercion tries each interpretation in a
/// fixed order — constant, unsigned integer, float, boolean — and falls
/// back to the text itself, so every string parses to something.
pub open spec fn parse_value_spec(s: Seq<char>) -> ValueView {
    if trim_spec(s) == "graduation-year"@ {
        ValueView::Constant(Constant::GraduationYear)
    } else if parse_u64_spec(s) is Some {
        ValueView::Integer(parse_u64_spec(s)->Some_0)
    } else if parse_float_spec(s) is Some {
        ValueView::Float(parse_float_spec(s)->Some_0)
    } else if s == "true"@ {
        ValueView::Bool(true)
    } else if s == "false"@ {
        ValueView::Bool(false)
    } else {
        ValueView::String(s)
    }
}

/// Parses `s` into a typed value; total by the `String` fallback.
pub fn parse_value_chars(s: &[char]) -> (r: Value)
    ensures
        r@ == parse_value_spec(s@),
        value_wf(r@),
{
    match Constant::parse_chars(s) {
        Ok(c) => {
            return Value::Constant(c);
        },
        Err(_) => {},
    }
    match parse_u64(s) {
        Some(n) => {
            return Value::Integer(n);
        },
        None => {},
    }
    match parse_float(s) {
        Some(d) => {
            return Value::Float(d);
        },
        None => {},
    }
    let tr = chars_of("true");
    if chars_eq(s, tr.as_slice()) {
        return Value::Bool(true);
    }
    let fa = chars_of("false");
    if chars_eq(s, fa.as_slice()) {
        return Value::Bool(false);
    }
    Value::String(string_of(&slice_to_vec_chars(s)))
}

/// A `Vec` holding the characters of `s`.
fn slice_to_vec_chars(s: &[char]) -> (r: Vec<char>)
    ensures
        r@ == s@,
{
    vstd::slice::slice_to_vec(s)
}

/// The canonical text of a value: a string prints itself, an integer its
/// decimal digits, a float its two-decimal rendering, a boolean `true` or
/// `false`, a constant its vocabulary word.
pub open spec fn value_text(v: ValueView) -> Seq<char> {
    match v {
        ValueView::String(s) => s,
        ValueView::Integer(n) => u64_digits(n as int),
        ValueView::Float(d) => dec_display(d),
        ValueView::Bool(b) => if b {
            "true"@
        } else {
            "false"@
        },
        ValueView::Constant(c) => constant_text(c),
    }
}

/// A value the library holds is well-formed when any decimal in it is
/// normalized.
pub open spec fn value_wf(v: ValueView) -> bool {
    match v {
        ValueView::Float(d) => d.well_formed(),
        _ => true,
    }
}

impl Value {
    /// Well-formedness: any decimal held is normalized.
    pub open spec fn wf(&self) -> bool {
        value_wf(self@)
    }

    /// Parses `s` into a typed value (see [`parse_value_spec`]).
    pub fn parse(s: &str) -> (r: Value)
        ensures
            r@ == parse_value_spec(s@),
            value_wf(r@),
    {
        let cs = chars_of(s);
        parse_value_chars(cs.as_slice())
    }

    /// Appends the canonical text of this value to `out`.
    pub fn push_text(&self, out: &mut Vec<char>)
        requires
            self.wf(),
        ensures
            final(out)@ == old(out)@ + value_text(self@),
    {
        match self {
            Value::String(s) => {
                let mut cs = chars_of(s.as_str());
                out.append(&mut cs);
            },
            Value::Integer(n) => {
                push_u64(out, *n);
            },
            Value::Float(d) => {
                d.push_text(out);
            },
            Value::Bool(b) => {
                let mut cs = if *b {
                    chars_of("true")
                } else {
                    chars_of("false")
                };
                out.append(&mut cs);
            },
            Value::Constant(c) => {
                let mut cs = chars_of("graduation-year");
                out.append(&mut cs);
            },
        }
    }

    /// The canonical text of this value.
    pub fn to_text(&self) -> (r: String)
        requires
            self.wf(),
        ensures
            r@ == value_text(self@),
    {
        let mut out: Vec<char> = Vec::new();
        self.push_text(&mut out);
        string_of(&out)
    }

    /// True exactly when this value is the boolean `b`.
    pub fn eq_bool(&self, b: bool) -> (r: bool)
        ensures
            r == (self@ == ValueView::Bool(b)),
    {
        match self {
            Value::Bool(x) => *x == b,
            _ => false,
        }
    }
}

impl From<u64> for Value {
    fn from(n: u64) -> (r: Value) {
        Value::Integer(n)
    }
}

impl vstd::std_specs::convert::FromSpecImpl<u64> for Value {
    open spec fn obeys_from_spec() -> bool {
        true
    }

    open spec fn from_spec(n: u64) -> Value {
        Value::Integer(n)
    }
}

impl From<bool> for Value {
    fn from(b: bool) -> (r: Value) {
        Value::Bool(b)
    }
}

impl vstd::std_specs::convert::FromSpecImpl<bool> for Value {
    open spec fn obeys_from_spec() -> bool {
        true
    }

    open spec fn from_spec(b: bool) -> Value {
        Value::Bool(b)
    }
}

impl From<String> for Value {
    fn from(s: String) -> (r: Value) {
        Value::String(s)
    }
}

impl vstd::std_specs::convert::FromSpecImpl<String> for Value {
    open spec fn obeys_from_spec() -> bool {
        true
    }

    open spec fn from_spec(s: String) -> Value {
        Value::String(s)
    }
}

} // verus!

verus! {

/// An operator applied to a value: one comparison of the filter grammar.
#[derive(Debug, PartialEq, Clone)]
pub struct TaggedValue {
    pub op: Operator,
    pub value: Value,
}

/// The mathematical shape of a [`TaggedValue`].
pub struct TaggedValueView {
    pub op: Operator,
    pub value: ValueView,
}

impl View for TaggedValue {
    type V = TaggedValueView;

    open spec fn view(&self) -> TaggedValueView {
        TaggedValueView { op: self.op, value: self.value@ }
    }
}

impl DeepView for TaggedValue {
    type V = TaggedValueView;

    open spec fn deep_view(&self) -> TaggedValueView {
        self.view()
    }
}

/// Well-formedness of a tagged value: its value is well-formed.
pub open spec fn tagged_wf(t: TaggedValueView) -> bool {
    value_wf(t.value)
}

/// The canonical text of a tagged value: the operator, a space, the value.
pub open spec fn tagged_text(t: TaggedValueView) -> Seq<char> {
    op_text(t.op) + seq![' '] + value_text(t.value)
}

/// The tagged value a string denotes. A string that starts with an operator
/// character splits on whitespace into an operator and a value token (one
/// lone token is a value under the implicit `=`); any other token count is
/// malformed. A string that does not start with an operator character is a
/// value under the implicit `=`.
pub open spec fn parse_tagged_spec(s: Seq<char>) -> Result<TaggedValueView, ParseError> {
    if s.len() > 0 && (s[0] == '!' || s[0] == '<' || s[0] == '>' || s[0] == '=') {
        let toks = ws_tokens(s);
        if toks.len() == 1 {
            Ok(TaggedValueView { op: Operator::EqualTo, value: parse_value_spec(toks[0]) })
        } else if toks.len() == 2 {
            match parse_op_spec(toks[0]) {
                Some(op) => Ok(TaggedValueView { op, value: parse_value_spec(toks[1]) }),
                None => Err(ParseError::InvalidAction),
            }
        } else {
            Err(ParseError::InvalidAction)
        }
    } else {
        Ok(TaggedValueView { op: Operator::EqualTo, value: parse_value_spec(s) })
    }
}

/// The view of a tagged-value parse result.
pub open spec fn tagged_res_view(r: Result<TaggedValue, ParseError>) -> Result<
    TaggedValueView,
    ParseError,
> {
    match r {
        Ok(t) => Ok(t@),
        Err(e) => Err(e),
    }
}

/// Parses `s` as a tagged value.
pub fn parse_tagged_chars(s: &[char]) -> (r: Result<TaggedValue, ParseError>)
    ensures
        tagged_res_view(r) == parse_tagged_spec(s@),
        r is Ok ==> tagged_wf(r->Ok_0@),
{
    let n = s.len();
    if n > 0 && (s[0] == '!' || s[0] == '<' || s[0] == '>' || s[0] == '=') {
        let toks = tokenize(s);
        proof {
            assert(toks.deep_view() == ws_tokens(s@));
        }
        if toks.len() == 1 {
            proof {
                assert(toks@[0]@ =~= toks.deep_view()[0]);
            }
            let value = parse_value_chars(toks[0].as_slice());
            Ok(TaggedValue { op: Operator::EqualTo, value })
        } else if toks.len() == 2 {
            proof {
                assert(toks@[0]@ =~= toks.deep_view()[0]);
                assert(toks@[1]@ =~= toks.deep_view()[1]);
            }
            match Operator::parse_token(toks[0].as_slice()) {
                Some(op) => {
                    let value = parse_value_chars(toks[1].as_slice());
                    Ok(TaggedValue { op, value })
                },
                None => Err(ParseError::InvalidAction),
            }
        } else {
            Err(ParseError::InvalidAction)
        }
    } else {
        let value = parse_value_chars(s);
        Ok(TaggedValue { op: Operator::EqualTo, value })
    }
}

impl TaggedValue {
    /// Well-formedness: the held value is well-formed.
    pub open spec fn wf(&self) -> bool {
        tagged_wf(self@)
    }

    /// Parses `s` as a tagged value.
    pub fn parse(s: &str) -> (r: Result<TaggedValue, ParseError>)
        ensures
            tagged_res_view(r) == parse_tagged_spec(s@),
            r is Ok ==> tagged_wf(r->Ok_0@),
    {
        let cs = chars_of(s);
        parse_tagged_chars(cs.as_slice())
    }

    /// True exactly when this comparison is the implicit or explicit
    /// equality against the boolean `true`.
    pub fn is_true(&self) -> (r: bool)
        ensures
            r == (self.op == Operator::EqualTo && self@.value == ValueView::Bool(true)),
    {
        match self.op {
            Operator::EqualTo => self.value.eq_bool(true),
            _ => false,
        }
    }

    /// Appends the canonical text of this tagged value to `out`.
    pub fn push_text(&self, out: &mut Vec<char>)
        requires
            self.wf(),
        ensures
            final(out)@ == old(out)@ + tagged_text(self@),
    {
        self.op.push_text(out);
        out.push(' ');
        self.value.push_text(out);
        proof {
            assert(out@ =~= old(out)@ + tagged_text(self@));
        }
    }

    /// The canonical text of this tagged value.
    pub fn to_text(&self) -> (r: String)
        requires
            self.wf(),
        ensures
            r@ == tagged_text(self@),
    {
        let mut out: Vec<char> = Vec::new();
        self.push_text(&mut out);
        string_of(&out)
    }
}

} // verus!

verus! {

/// A combinator over tagged values for one attribute: a single comparison,
/// a disjunction, or a conjunction.
#[derive(Debug, PartialEq, Clone)]
pub enum WrappedValue {
    Single(TaggedValue),
    Or(Vec<TaggedValue>),
    And(Vec<TaggedValue>),
}

/// The mathematical shape of a [`WrappedValue`].
pub enum WrappedValueView {
    Single(TaggedValueView),
    Or(Seq<TaggedValueView>),
    And(Seq<TaggedValueView>),
}

impl View for WrappedValue {
    type V = WrappedValueView;

    open spec fn view(&self) -> WrappedValueView {
        match self {
            WrappedValue::Single(t) => WrappedValueView::Single(t@),
            WrappedValue::Or(l) => WrappedValueView::Or(l.deep_view()),
            WrappedValue::And(l) => WrappedValueView::And(l.deep_view()),
        }
    }
}

impl DeepView for WrappedValue {
    type V = WrappedValueView;

    open spec fn deep_view(&self) -> WrappedValueView {
        self.view()
    }
}

/// Well-formedness of a combinator: every tagged value in it is.
pub open spec fn wrapped_wf(w: WrappedValueView) -> bool {
    match w {
        WrappedValueView::Single(t) => tagged_wf(t),
        WrappedValueView::Or(l) => forall|i: int| 0 <= i < l.len() ==> tagged_wf(#[trigger] l[i]),
        WrappedValueView::And(l) => forall|i: int| 0 <= i < l.len() ==> tagged_wf(#[trigger] l[i]),
    }
}

/// Each tagged value inside a well-formed combinator is well-formed.
pub proof fn lemma_wrapped_wf_elements(w: WrappedValueView)
    requires
        wrapped_wf(w),
    ensures
        w is Or ==> forall|i: int| 0 <= i < w->Or_0.len() ==> tagged_wf(#[trigger] w->Or_0[i]),
        w is And ==> forall|i: int|
            0 <= i < w->And_0.len() ==> tagged_wf(#[trigger] w->And_0[i]),
{
}

/// The tagged values the parts denote, or the first failure, left to right.
pub open spec fn parse_tagged_seq(parts: Seq<Seq<char>>) -> Result<Seq<TaggedValueView>, ParseError>
    decreases parts.len(),
{
    if parts.len() == 0 {
        Ok(Seq::empty())
    } else {
        match parse_tagged_spec(parts[0]) {
            Err(e) => Err(e),
            Ok(t) => match parse_tagged_seq(parts.drop_first()) {
                Ok(rest) => Ok(seq![t] + rest),
                Err(e) => Err(e),
            },
        }
    }
}

proof fn lemma_parse_tagged_seq_snoc(parts: Seq<Seq<char>>, p: Seq<char>)
    ensures
        parse_tagged_seq(parts.push(p)) == (match parse_tagged_seq(parts) {
            Ok(l) => match parse_tagged_spec(p) {
                Ok(t) => Ok::<Seq<TaggedValueView>, ParseError>(l.push(t)),
                Err(e) => Err(e),
            },
            Err(e) => Err(e),
        }),
    decreases parts.len(),
{
    if parts.len() == 0 {
        assert(parts.push(p)[0] == p);
        assert(parts.push(p).drop_first() =~= Seq::<Seq<char>>::empty());
        match parse_tagged_spec(p) {
            Ok(t) => {
                assert(seq![t] + Seq::<TaggedValueView>::empty() =~= Seq::<
                    TaggedValueView,
                >::empty().push(t));
            },
            Err(e) => {},
        }
    } else {
        assert(parts.push(p)[0] == parts[0]);
        assert(parts.push(p).drop_first() =~= parts.drop_first().push(p));
        lemma_parse_tagged_seq_snoc(parts.drop_first(), p);
        match parse_tagged_spec(parts[0]) {
            Err(e) => {},
            Ok(t) => {
                match parse_tagged_seq(parts.drop_first()) {
                    Ok(rest) => {
                        match parse_tagged_spec(p) {
                            Ok(t2) => {
                                assert(seq![t] + rest.push(t2) =~= (seq![t] + rest).push(t2));
                            },
                            Err(e) => {},
                        }
                    },
                    Err(e) => {},
                }
            },
        }
    }
}

/// The combinator a string denotes: parts split on `" | "` become a
/// disjunction when there are at least two, else parts split on `" & "`
/// become a conjunction when there are at least two, else the whole string
/// is a single comparison. Disjunction splitting has priority; text holding
/// both separators is split on `" | "` first.
pub open spec fn parse_wrapped_spec(s: Seq<char>) -> Result<WrappedValueView, ParseError> {
    let ors = split_sep(s, seq![' ', '|', ' ']);
    if ors.len() >= 2 {
        match parse_tagged_seq(ors) {
            Ok(l) => Ok(WrappedValueView::Or(l)),
            Err(e) => Err(e),
        }
    } else {
        let ands = split_sep(s, seq![' ', '&', ' ']);
        if ands.len() >= 2 {
            match parse_tagged_seq(ands) {
                Ok(l) => Ok(WrappedValueView::And(l)),
                Err(e) => Err(e),
            }
        } else {
            match parse_tagged_spec(s) {
                Ok(t) => Ok(WrappedValueView::Single(t)),
                Err(e) => Err(e),
            }
        }
    }
}

/// The view of a combinator parse result.
pub open spec fn wrapped_res_view(r: Result<WrappedValue, ParseError>) -> Result<
    WrappedValueView,
    ParseError,
> {
    match r {
        Ok(w) => Ok(w@),
        Err(e) => Err(e),
    }
}

/// Parses every part as a tagged value, or stops at the first failure.
fn parse_tagged_parts(parts: &Vec<Vec<char>>) -> (r: Result<Vec<TaggedValue>, ParseError>)
    ensures
        (match r {
            Ok(l) => parse_tagged_seq(parts.deep_view()) == Ok::<_, ParseError>(l.deep_view()),
            Err(e) => parse_tagged_seq(parts.deep_view()) == Err::<Seq<TaggedValueView>,
            ParseError>(e),
        }),
        r is Ok ==> forall|i: int|
            0 <= i < r->Ok_0.deep_view().len() ==> tagged_wf(#[trigger] r->Ok_0.deep_view()[i]),
{
    let mut acc: Vec<TaggedValue> = Vec::new();
    let mut i: usize = 0;
    proof {
        assert(parts.deep_view().take(0int) =~= Seq::<Seq<char>>::empty());
        assert(acc.deep_view() =~= Seq::<TaggedValueView>::empty());
    }
    while i < parts.len()
        invariant
            i <= parts@.len(),
            parts.deep_view().len() == parts@.len(),
            parse_tagged_seq(parts.deep_view().take(i as int)) == Ok::<_, ParseError>(
                acc.deep_view(),
            ),
            forall|k: int| 0 <= k < acc.deep_view().len() ==> tagged_wf(#[trigger] acc.deep_view()[k]),
        decreases parts@.len() - i,
    {
        proof {
            assert(parts@[i as int]@ =~= parts.deep_view()[i as int]);
            assert(parts.deep_view().take(i + 1) =~= parts.deep_view().take(i as int).push(
                parts.deep_view()[i as int],
            ));
            lemma_parse_tagged_seq_snoc(parts.deep_view().take(i as int), parts.deep_view()[i as int]);
        }
        match parse_tagged_chars(parts[i].as_slice()) {
            Ok(t) => {
                let ghost pre = acc.deep_view();
                let ghost pre_shallow = acc@;
                proof {
                    assert(acc.deep_view().len() == acc@.len());
                }
                acc.push(t);
                proof {
                    assert forall|j: int| 0 <= j < acc@.len() implies acc.deep_view()[j] == pre.push(
                        t@,
                    )[j] by {
                        if j < pre_shallow.len() {
                            assert(acc@[j] == pre_shallow[j]);
                            assert(pre_shallow[j].deep_view() == pre[j]);
                        }
                    }
                    assert(acc.deep_view() =~= pre.push(t@));
                }
            },
            Err(e) => {
                proof {
                    assert(parts.deep_view().take(parts@.len() as int) =~= parts.deep_view());
                    lemma_parse_tagged_seq_prefix_err(parts.deep_view(), i as int, e);
                }
                return Err(e);
            },
        }
        i += 1;
    }
    proof {
        assert(parts.deep_view().take(parts@.len() as int) =~= parts.deep_view());
    }
    Ok(acc)
}

/// A failure while parsing a prefix decides the whole sequence.
proof fn lemma_parse_tagged_seq_prefix_err(parts: Seq<Seq<char>>, i: int, e: ParseError)
    requires
        0 <= i < parts.len(),
        parse_tagged_seq(parts.take(i)) is Ok,
        parse_tagged_spec(parts[i]) == Err::<TaggedValueView, ParseError>(e),
    ensures
        parse_tagged_seq(parts) == Err::<Seq<TaggedValueView>, ParseError>(e),
    decreases i,
{
    if i == 0 {
    } else {
        assert(parts.take(i)[0] == parts[0]);
        assert(parse_tagged_spec(parts[0]) is Ok) by {
            if parse_tagged_spec(parts.take(i)[0]) is Err {
                assert(parse_tagged_seq(parts.take(i)) is Err);
            }
        }
        assert(parts.take(i).drop_first() =~= parts.drop_first().take(i - 1));
        assert(parse_tagged_seq(parts.drop_first().take(i - 1)) is Ok) by {
            if parse_tagged_seq(parts.take(i).drop_first()) is Err {
                assert(parse_tagged_seq(parts.take(i)) is Err);
            }
        }
        assert(parts.drop_first()[i - 1] == parts[i]);
        lemma_parse_tagged_seq_prefix_err(parts.drop_first(), i - 1, e);
    }
}

/// Parses `s` as a combinator over tagged values.
pub fn parse_wrapped_chars(s: &[char]) -> (r: Result<WrappedValue, ParseError>)
    ensures
        wrapped_res_view(r) == parse_wrapped_spec(s@),
        r is Ok ==> wrapped_wf(r->Ok_0@),
{
    let ors = split_on(s, '|');
    if ors.len() >= 2 {
        match parse_tagged_parts(&ors) {
            Ok(l) => Ok(WrappedValue::Or(l)),
            Err(e) => Err(e),
        }
    } else {
        let ands = split_on(s, '&');
        if ands.len() >= 2 {
            match parse_tagged_parts(&ands) {
                Ok(l) => Ok(WrappedValue::And(l)),
                Err(e) => Err(e),
            }
        } else {
            match parse_tagged_chars(s) {
                Ok(t) => Ok(WrappedValue::Single(t)),
                Err(e) => Err(e),
            }
        }
    }
}

} // verus!

verus! {

/// The canonical text of a combinator: the single comparison's text, or the
/// comparisons joined with `" | "` / `" & "`.
pub open spec fn wrapped_text(w: WrappedValueView) -> Seq<char> {
    match w {
        WrappedValueView::Single(t) => tagged_text(t),
        WrappedValueView::Or(l) => join_sep(
            l.map_values(|t: TaggedValueView| tagged_text(t)),
            seq![' ', '|', ' '],
        ),
        WrappedValueView::And(l) => join_sep(
            l.map_values(|t: TaggedValueView| tagged_text(t)),
            seq![' ', '&', ' '],
        ),
    }
}

/// The prose of a combinator: the single comparison's text, or the
/// comparisons joined Oxford-style with `or` / `and`.
pub open spec fn wrapped_print_spec(w: WrappedValueView) -> Seq<char> {
    match w {
        WrappedValueView::Single(t) => tagged_text(t),
        WrappedValueView::Or(l) => oxford_spec(
            l.map_values(|t: TaggedValueView| tagged_text(t)),
            "or"@,
        ),
        WrappedValueView::And(l) => oxford_spec(
            l.map_values(|t: TaggedValueView| tagged_text(t)),
            "and"@,
        ),
    }
}

/// The canonical texts of the tagged values, in order.
fn tagged_texts(l: &Vec<TaggedValue>) -> (r: Vec<Vec<char>>)
    requires
        forall|i: int| 0 <= i < l.deep_view().len() ==> tagged_wf(#[trigger] l.deep_view()[i]),
    ensures
        r.deep_view() == l.deep_view().map_values(|t: TaggedValueView| tagged_text(t)),
{
    let ghost f = |t: TaggedValueView| tagged_text(t);
    let mut r: Vec<Vec<char>> = Vec::new();
    let mut i: usize = 0;
    proof {
        assert(r.deep_view() =~= l.deep_view().take(0int).map_values(f));
    }
    while i < l.len()
        invariant
            i <= l@.len(),
            l.deep_view().len() == l@.len(),
            f == (|t: TaggedValueView| tagged_text(t)),
            forall|k: int| 0 <= k < l.deep_view().len() ==> tagged_wf(#[trigger] l.deep_view()[k]),
            r.deep_view() == l.deep_view().take(i as int).map_values(f),
        decreases l@.len() - i,
    {
        proof {
            assert(l@[i as int]@ == l.deep_view()[i as int]);
        }
        let mut buf: Vec<char> = Vec::new();
        l[i].push_text(&mut buf);
        let ghost pre = r.deep_view();
        let ghost pre_shallow = r@;
        proof {
            assert(r.deep_view().len() == pre_shallow.len());
        }
        r.push(buf);
        proof {
            assert forall|j: int| 0 <= j < r@.len() implies r.deep_view()[j] == l.deep_view().take(
                i + 1,
            ).map_values(f)[j] by {
                if j < pre_shallow.len() {
                    assert(r@[j] == pre_shallow[j]);
                    assert(pre_shallow[j].deep_view() == pre[j]);
                    assert(pre[j] == l.deep_view().take(i as int).map_values(f)[j]);
                } else {
                    assert(r@[j] == buf);
                    assert(buf.deep_view() =~= buf@);
                }
            }
            assert(r.deep_view() =~= l.deep_view().take(i + 1).map_values(f));
        }
        i += 1;
    }
    proof {
        assert(l.deep_view().take(l@.len() as int) =~= l.deep_view());
    }
    r
}

impl WrappedValue {
    /// Well-formedness: every tagged value held is well-formed.
    pub open spec fn wf(&self) -> bool {
        wrapped_wf(self@)
    }

    /// Parses `s` as a combinator over tagged values.
    pub fn parse(s: &str) -> (r: Result<WrappedValue, ParseError>)
        ensures
            wrapped_res_view(r) == parse_wrapped_spec(s@),
            r is Ok ==> wrapped_wf(r->Ok_0@),
    {
        let cs = chars_of(s);
        parse_wrapped_chars(cs.as_slice())
    }

    /// A single equality comparison against the plain string `s`.
    pub fn new(s: &str) -> (r: WrappedValue)
        ensures
            r@ == WrappedValueView::Single(
                TaggedValueView { op: Operator::EqualTo, value: ValueView::String(s@) },
            ),
            r.wf(),
    {
        WrappedValue::Single(TaggedValue { op: Operator::EqualTo, value: Value::String(s.to_owned()) })
    }

    /// True exactly when this combinator is a single equality against the
    /// boolean `true`.
    pub fn is_true(&self) -> (r: bool)
        ensures
            r == (match self@ {
                WrappedValueView::Single(t) => t.op == Operator::EqualTo && t.value
                    == ValueView::Bool(true),
                _ => false,
            }),
    {
        match self {
            WrappedValue::Single(v) => v.is_true(),
            _ => false,
        }
    }

    /// Appends the canonical text of this combinator to `out`.
    pub fn push_text(&self, out: &mut Vec<char>)
        requires
            self.wf(),
        ensures
            final(out)@ == old(out)@ + wrapped_text(self@),
    {
        proof {
            assert(wrapped_wf(self@));
        }
        match self {
            WrappedValue::Single(t) => {
                t.push_text(out);
            },
            WrappedValue::Or(l) => {
                proof {
                    assert(self@ == WrappedValueView::Or(l.deep_view()));
                    lemma_wrapped_wf_elements(self@);
                    assert(self@->Or_0 == l.deep_view());
                    assert forall|i: int| 0 <= i < l.deep_view().len() implies tagged_wf(
                        #[trigger] l.deep_view()[i],
                    ) by {
                        assert(tagged_wf(self@->Or_0[i]));
                    }
                }
                let parts = tagged_texts(l);
                let sep = [' ', '|', ' '];
                let mut joined = join_with(&parts, &sep);
                proof {
                    assert(sep@ =~= seq![' ', '|', ' ']);
                }
                out.append(&mut joined);
            },
            WrappedValue::And(l) => {
                proof {
                    assert(self@ == WrappedValueView::And(l.deep_view()));
                    lemma_wrapped_wf_elements(self@);
                    assert(self@->And_0 == l.deep_view());
                    assert forall|i: int| 0 <= i < l.deep_view().len() implies tagged_wf(
                        #[trigger] l.deep_view()[i],
                    ) by {
                        assert(tagged_wf(self@->And_0[i]));
                    }
                }
                let parts = tagged_texts(l);
                let sep = [' ', '&', ' '];
                let mut joined = join_with(&parts, &sep);
                proof {
                    assert(sep@ =~= seq![' ', '&', ' ']);
                }
                out.append(&mut joined);
            },
        }
    }

    /// The canonical text of this combinator.
    pub fn to_text(&self) -> (r: String)
        requires
            self.wf(),
        ensures
            r@ == wrapped_text(self@),
    {
        let mut out: Vec<char> = Vec::new();
        self.push_text(&mut out);
        string_of(&out)
    }

    /// The prose of this combinator, its comparisons joined Oxford-style.
    pub fn print(&self) -> (r: String)
        requires
            self.wf(),
        ensures
            r@ == wrapped_print_spec(self@),
    {
        proof {
            assert(wrapped_wf(self@));
        }
        match self {
            WrappedValue::Single(t) => t.to_text(),
            WrappedValue::Or(l) => {
                proof {
                    assert(self@ == WrappedValueView::Or(l.deep_view()));
                    lemma_wrapped_wf_elements(self@);
                    assert(self@->Or_0 == l.deep_view());
                    assert forall|i: int| 0 <= i < l.deep_view().len() implies tagged_wf(
                        #[trigger] l.deep_view()[i],
                    ) by {
                        assert(tagged_wf(self@->Or_0[i]));
                    }
                }
                let parts = tagged_texts(l);
                let conj = ['o', 'r'];
                let joined = oxford(&parts, &conj);
                proof {
                    reveal_strlit("or");
                    assert(conj@ =~= "or"@);
                }
                string_of(&joined)
            },
            WrappedValue::And(l) => {
                proof {
                    assert(self@ == WrappedValueView::And(l.deep_view()));
                    lemma_wrapped_wf_elements(self@);
                    assert(self@->And_0 == l.deep_view());
                    assert forall|i: int| 0 <= i < l.deep_view().len() implies tagged_wf(
                        #[trigger] l.deep_view()[i],
                    ) by {
                        assert(tagged_wf(self@->And_0[i]));
                    }
                }
                let parts = tagged_texts(l);
                let conj = ['a', 'n', 'd'];
                let joined = oxford(&parts, &conj);
                proof {
                    reveal_strlit("and");
                    assert(conj@ =~= "and"@);
                }
                string_of(&joined)
            },
        }
    }
}

/// Parses a value string of the filter grammar (see [`parse_value_spec`]).
pub fn parse_value(s: &str) -> (r: Value)
    ensures
        r@ == parse_value_spec(s@),
        value_wf(r@),
{
    Value::parse(s)
}

/// Parses a tagged-value string of the filter grammar (see
/// [`parse_tagged_spec`]).
pub fn parse_tagged(s: &str) -> (r: Result<TaggedValue, ParseError>)
    ensures
        tagged_res_view(r) == parse_tagged_spec(s@),
        r is Ok ==> tagged_wf(r->Ok_0@),
{
    TaggedValue::parse(s)
}

/// Parses a combinator string of the filter grammar (see
/// [`parse_wrapped_spec`]).
pub fn parse_wrapped(s: &str) -> (r: Result<WrappedValue, ParseError>)
    ensures
        wrapped_res_view(r) == parse_wrapped_spec(s@),
        r is Ok ==> wrapped_wf(r->Ok_0@),
{
    WrappedValue::parse(s)
}

impl core::str::FromStr for Value {
    type Err = ParseError;

    fn from_str(s: &str) -> (r: Result<Value, ParseError>) {
        Ok(Value::parse(s))
    }
}

impl core::str::FromStr for TaggedValue {
    type Err = ParseError;

    fn from_str(s: &str) -> (r: Result<TaggedValue, ParseError>) {
        TaggedValue::parse(s)
    }
}

impl core::str::FromStr for WrappedValue {
    type Err = ParseError;

    fn from_str(s: &str) -> (r: Result<WrappedValue, ParseError>) {
        WrappedValue::parse(s)
    }
}

impl core::str::FromStr for Constant {
    type Err = ParseError;

    fn from_str(s: &str) -> (r: Result<Constant, ParseError>) {
        let cs = chars_of(s);
        Constant::parse_chars(cs.as_slice())
    }
}

} // verus!
