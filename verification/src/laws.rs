//! The laws of the expression grammar: operator-prefixed strings parse back
//! to their operator and value whatever whitespace separates them, and
//! rendering a parsed value and parsing the rendering gives the value back.

use vstd::prelude::*;

use crate::decimal::{dec_display, dec_scaled2, normal_dec, parse_float_spec, pow10, Decimal};
use crate::text::{
    all_digits, all_ws, digits_val, is_digit, is_ws, lemma_u64_digits, lemma_ws_tokens_all_ws,
    lemma_ws_tokens_concat, lemma_ws_tokens_single, no_ws, parse_u64_spec, trim_spec, u64_digits,
    ws_tokens,
};
use crate::value::{
    op_text, parse_op_spec, parse_tagged_seq, parse_tagged_spec, parse_value_spec,
    parse_wrapped_spec, tagged_text, value_text, wrapped_text, Operator, TaggedValueView,
    ValueView, WrappedValueView,
};
use crate::ParseError;

verus! {

/// Digits are never whitespace.
proof fn lemma_digits_no_ws(s: Seq<char>)
    requires
        all_digits(s),
    ensures
        no_ws(s),
{
    assert forall|i: int| 0 <= i < s.len() implies !is_ws(#[trigger] s[i]) by {
        assert(is_digit(s[i]));
    }
}

/// An operator's text is one or two non-whitespace characters, the first of
/// which announces an operator, and it parses back to the operator.
proof fn lemma_op_text(op: Operator)
    ensures
        op_text(op).len() > 0,
        no_ws(op_text(op)),
        op_text(op)[0] == '!' || op_text(op)[0] == '<' || op_text(op)[0] == '>' || op_text(op)[0]
            == '=',
        parse_op_spec(op_text(op)) == Some(op),
{
    reveal_strlit("=");
    reveal_strlit("!");
    reveal_strlit(">");
    reveal_strlit(">=");
    reveal_strlit("<");
    reveal_strlit("<=");
    assert("="@[0] == '=' && "!"@[0] == '!' && ">"@[0] == '>' && "<"@[0] == '<');
    assert(">="@[0] == '>' && "<="@[0] == '<');
    match op {
        Operator::EqualTo => {
            assert(no_ws("="@));
        },
        Operator::NotEqualTo => {
            assert(no_ws("!"@));
            assert("!"@ != "="@) by {
                if "!"@ == "="@ {
                    assert("!"@[0] == "="@[0]);
                }
            }
        },
        Operator::GreaterThan => {
            assert(no_ws(">"@));
            assert(">"@ != "="@) by {
                if ">"@ == "="@ {
                    assert(">"@[0] == "="@[0]);
                }
            }
            assert(">"@ != "!"@) by {
                if ">"@ == "!"@ {
                    assert(">"@[0] == "!"@[0]);
                }
            }
        },
        Operator::GreaterThanEqualTo => {
            assert(no_ws(">="@));
            assert(">="@.len() == 2 && "="@.len() == 1 && "!"@.len() == 1 && ">"@.len() == 1);
        },
        Operator::LessThan => {
            assert(no_ws("<"@));
            assert("<"@ != "="@) by {
                if "<"@ == "="@ {
                    assert("<"@[0] == "="@[0]);
                }
            }
            assert("<"@ != "!"@) by {
                if "<"@ == "!"@ {
                    assert("<"@[0] == "!"@[0]);
                }
            }
            assert("<"@ != ">"@) by {
                if "<"@ == ">"@ {
                    assert("<"@[0] == ">"@[0]);
                }
            }
            assert("<"@.len() == 1 && ">="@.len() == 2);
        },
        Operator::LessThanEqualTo => {
            assert(no_ws("<="@));
            assert("<="@.len() == 2 && "="@.len() == 1 && "!"@.len() == 1 && ">"@.len() == 1
                && "<"@.len() == 1);
            assert("<="@ != ">="@) by {
                if "<="@ == ">="@ {
                    assert("<="@[0] == ">="@[0]);
                }
            }
        },
    }
}

/// For every operator and every whitespace-free value token, the
/// operator-prefixed string recovers exactly the operator and the token's
/// value, independent of the whitespace that surrounds the token.
pub proof fn lemma_parse_tagged_operator(
    op: Operator,
    w1: Seq<char>,
    tok: Seq<char>,
    w2: Seq<char>,
)
    requires
        all_ws(w1),
        w1.len() > 0,
        all_ws(w2),
        tok.len() > 0,
        no_ws(tok),
    ensures
        parse_tagged_spec(op_text(op) + w1 + tok + w2) == Ok::<TaggedValueView, ParseError>(
            TaggedValueView { op, value: parse_value_spec(tok) },
        ),
{
    lemma_op_text(op);
    let o = op_text(op);
    let s = o + w1 + tok + w2;
    assert(s[0] == o[0]);
    assert(is_ws(w1[0]));
    assert(is_ws((w1 + tok + w2)[0]));
    lemma_ws_tokens_concat(o, w1 + tok + w2);
    assert(o + (w1 + tok + w2) =~= s);
    lemma_ws_tokens_all_ws(w1);
    lemma_ws_tokens_all_ws(w2);
    lemma_ws_tokens_single(o);
    lemma_ws_tokens_single(tok);
    lemma_ws_tokens_concat(w1, tok + w2);
    assert(w1 + (tok + w2) =~= w1 + tok + w2);
    if w2.len() > 0 {
        assert(is_ws(w2[0]));
    }
    lemma_ws_tokens_concat(tok, w2);
    assert(ws_tokens(s) =~= seq![o, tok]);
    assert(ws_tokens(s).len() == 2);
    assert(ws_tokens(s)[0] == o);
    assert(ws_tokens(s)[1] == tok);
}

} // verus!

verus! {

/// The values whose canonical text parses back to them: everything but a
/// fraction that the two-decimal rendering would round, and but a string
/// that is empty, holds whitespace, or reads as one of the other
/// interpretations.
pub open spec fn value_round_trips(v: ValueView) -> bool {
    match v {
        ValueView::Constant(_) => true,
        ValueView::Integer(_) => true,
        ValueView::Bool(_) => true,
        ValueView::Float(d) => d.well_formed() && d.scale <= 2 && dec_scaled2(d) <= u64::MAX,
        ValueView::String(s) => s.len() > 0 && no_ws(s) && parse_value_spec(s)
            == ValueView::String(s),
    }
}

/// The canonical text of a round-tripping value is a nonempty token without
/// whitespace.
pub proof fn lemma_value_text_token(v: ValueView)
    requires
        value_round_trips(v),
    ensures
        value_text(v).len() > 0,
        no_ws(value_text(v)),
{
    match v {
        ValueView::Constant(c) => {
            reveal_strlit("graduation-year");
            assert(no_ws("graduation-year"@));
        },
        ValueView::Integer(n) => {
            lemma_u64_digits(n as int);
            lemma_digits_no_ws(u64_digits(n as int));
        },
        ValueView::Bool(b) => {
            reveal_strlit("true");
            reveal_strlit("false");
            assert(no_ws("true"@));
            assert(no_ws("false"@));
        },
        ValueView::Float(d) => {
            lemma_dec_display_shape(d);
        },
        ValueView::String(s) => {},
    }
}

/// The two-decimal rendering of a well-formed decimal is nonempty, free of
/// whitespace, and free of plus signs; its first character is a minus sign
/// exactly on a negative decimal, else a digit.
proof fn lemma_dec_display_shape(d: Decimal)
    requires
        d.well_formed(),
    ensures
        dec_display(d).len() > 0,
        no_ws(dec_display(d)),
        d.neg ==> dec_display(d)[0] == '-',
        !d.neg ==> is_digit(dec_display(d)[0]),
        forall|i: int| 0 <= i < dec_display(d).len() ==> #[trigger] dec_display(d)[i] != '+',
{
    let sc = dec_scaled2(d);
    lemma_dec_scaled2_nonneg(d);
    lemma_u64_digits(sc / 100);
    lemma_digits_no_ws(u64_digits(sc / 100));
    let sign: Seq<char> = if d.neg {
        seq!['-']
    } else {
        Seq::<char>::empty()
    };
    let text = dec_display(d);
    assert(text =~= sign + u64_digits(sc / 100) + seq!['.'] + crate::decimal::two_frac(sc % 100));
    assert forall|i: int| 0 <= i < text.len() implies !is_ws(#[trigger] text[i]) && text[i]
        != '+' by {
        let ds = u64_digits(sc / 100);
        let off = sign.len();
        if i < off {
            assert(text[i] == '-');
        } else if i < off + ds.len() {
            assert(text[i] == ds[i - off]);
            assert(is_digit(ds[i - off]));
        } else if i == off + ds.len() {
            assert(text[i] == '.');
        } else {
            assert(text[i] == crate::decimal::two_frac(sc % 100)[i - off - ds.len() - 1]);
            assert(is_digit(crate::decimal::two_frac(sc % 100)[i - off - ds.len() - 1])) by {
                crate::text::lemma_digit_char_is_digit(sc % 100 / 10);
                crate::text::lemma_digit_char_is_digit(sc % 100 % 10);
            }
        }
    }
    if !d.neg {
        assert(text[0] == u64_digits(sc / 100)[0]);
        assert(is_digit(u64_digits(sc / 100)[0]));
    }
}

/// The rounded hundredths of a well-formed decimal are nonnegative.
proof fn lemma_dec_scaled2_nonneg(d: Decimal)
    requires
        d.well_formed(),
    ensures
        dec_scaled2(d) >= 0,
{
    if d.scale <= 2 {
        crate::decimal::lemma_pow10_positive(2 - d.scale);
        assert(d.mantissa * pow10(2 - d.scale) >= 0) by (nonlinear_arith)
            requires
                d.mantissa >= 0,
                pow10(2 - d.scale) >= 1,
        ;
    } else {
        let p = pow10(d.scale - 2);
        crate::decimal::lemma_pow10_positive(d.scale - 2);
        assert(d.mantissa as int / p >= 0) by (nonlinear_arith)
            requires
                d.mantissa >= 0,
                p >= 1,
        ;
    }
}

} // verus!

verus! {

/// A digit string with a digit first character never equals the constant
/// vocabulary word.
proof fn lemma_digits_not_constant(s: Seq<char>)
    requires
        s.len() > 0,
        is_digit(s[0]) || s[0] == '-',
    ensures
        s != "graduation-year"@,
{
    reveal_strlit("graduation-year");
    if s == "graduation-year"@ {
        assert(s[0] == 'g');
    }
}

/// The canonical text of a round-tripping value parses back to the value.
pub proof fn lemma_value_display_parse(v: ValueView)
    requires
        value_round_trips(v),
    ensures
        parse_value_spec(value_text(v)) == v,
{
    lemma_value_text_token(v);
    let text = value_text(v);
    crate::text::lemma_trim_no_ws(text);
    match v {
        ValueView::Constant(c) => {
            reveal_strlit("graduation-year");
        },
        ValueView::Integer(n) => {
            lemma_u64_digits(n as int);
            lemma_digits_not_constant(text);
            assert(parse_u64_spec(text) == Some(n)) by {
                assert(is_digit(text[0]));
                assert(text[0] != '+');
                assert(crate::text::u64_body(text) == text);
            }
        },
        ValueView::Bool(b) => {
            reveal_strlit("graduation-year");
            reveal_strlit("true");
            reveal_strlit("false");
            assert(text != "graduation-year"@) by {
                if text == "graduation-year"@ {
                    assert(text[0] == 'g');
                    assert(text[0] == 't' || text[0] == 'f');
                }
            }
            assert(parse_u64_spec(text) is None) by {
                assert(text[0] != '+');
                assert(crate::text::u64_body(text) == text);
                assert(!is_digit(text[0]));
            }
            assert(parse_float_spec(text) is None) by {
                assert(text[0] != '+' && text[0] != '-');
                assert(crate::decimal::float_body(text) == text);
                crate::text::lemma_find_sep(text, seq!['.']);
                assert(crate::text::find_sep(text, seq!['.']) is None) by {
                    if crate::text::find_sep(text, seq!['.']) is Some {
                        let j = crate::text::find_sep(text, seq!['.'])->Some_0;
                        assert(crate::text::match_at(text, seq!['.'], j));
                        assert(text.subrange(j, j + 1)[0] == text[j]);
                        assert(text[j] == '.');
                        assert(forall|i: int| 0 <= i < text.len() ==> #[trigger] text[i] != '.');
                    }
                }
                assert(crate::text::digits_to_u64_spec(text) is None) by {
                    assert(!is_digit(text[0]));
                }
            }
            if b {
            } else {
                assert(text != "true"@);
            }
        },
        ValueView::Float(d) => {
            lemma_float_display_parse(d);
            lemma_dec_display_shape(d);
            lemma_digits_not_constant(text);
        },
        ValueView::String(s) => {},
    }
}

/// The two-decimal rendering of a well-formed decimal with at most two
/// fractional digits is rejected by the integer reading and parses back to
/// the decimal.
proof fn lemma_float_display_parse(d: Decimal)
    requires
        d.well_formed(),
        d.scale <= 2,
        dec_scaled2(d) <= u64::MAX,
    ensures
        parse_u64_spec(dec_display(d)) is None,
        parse_float_spec(dec_display(d)) == Some(d),
{
    let text = dec_display(d);
    lemma_dec_display_shape(d);
    let sc = dec_scaled2(d);
    lemma_dec_scaled2_nonneg(d);
    lemma_u64_digits(sc / 100);
    let sign: Seq<char> = if d.neg {
        seq!['-']
    } else {
        Seq::<char>::empty()
    };
    let ds = u64_digits(sc / 100);
    let fr = crate::decimal::two_frac(sc % 100);
    let off = sign.len() as int;
    let dot = off + ds.len() as int;
    assert(text =~= sign + ds + seq!['.'] + fr);
    assert(text[dot] == '.');
    assert(parse_u64_spec(text) is None) by {
        assert(text[0] != '+');
        assert(crate::text::u64_body(text) == text);
        if d.neg {
            assert(!is_digit(text[0]));
        } else {
            assert(!crate::text::all_digits(text)) by {
                assert(!is_digit(text[dot]));
            }
        }
    }
    // the signless body
    let b = crate::decimal::float_body(text);
    assert(crate::decimal::float_neg(text) == d.neg) by {
        if !d.neg {
            assert(is_digit(text[0]));
        }
    }
    assert(b =~= ds + seq!['.'] + fr) by {
        if d.neg {
            assert(text.drop_first() =~= ds + seq!['.'] + fr);
        } else {
            assert(is_digit(text[0]));
            assert(text[0] != '+' && text[0] != '-');
        }
    }
    let bdot = ds.len() as int;
    assert(crate::text::find_sep(b, seq!['.']) == Some(bdot)) by {
        assert(crate::text::match_at(b, seq!['.'], bdot)) by {
            assert(b.subrange(bdot, bdot + 1) =~= seq!['.']);
        }
        assert forall|j: int| 0 <= j < bdot implies !crate::text::match_at(b, seq!['.'], j) by {
            if crate::text::match_at(b, seq!['.'], j) {
                assert(b.subrange(j, j + 1)[0] == b[j]);
                assert(b[j] == '.');
                assert(b[j] == ds[j]);
                assert(is_digit(ds[j]));
            }
        }
        crate::text::lemma_find_sep_at(b, seq!['.'], bdot);
    }
    let ip = b.take(bdot);
    let fp = b.skip(bdot + 1);
    assert(ip =~= ds);
    assert(fp =~= fr);
    assert(fp.len() == 2);
    let cat = ip + fp;
    assert(crate::text::digits_to_u64_spec(cat) == Some(sc as u64)) by {
        crate::text::lemma_digit_char_is_digit(sc % 100 / 10);
        crate::text::lemma_digit_char_is_digit(sc % 100 % 10);
        assert(crate::text::all_digits(cat)) by {
            assert forall|i: int| 0 <= i < cat.len() implies is_digit(#[trigger] cat[i]) by {
                if i < ds.len() {
                    assert(cat[i] == ds[i]);
                } else {
                    assert(cat[i] == fr[i - ds.len()]);
                }
            }
        }
        assert(digits_val(cat) == sc) by {
            let h = sc % 100;
            assert(cat.drop_last() =~= ds + seq![crate::text::digit_char(h / 10)]);
            assert(cat.drop_last().drop_last() =~= ds);
            assert(cat.last() == crate::text::digit_char(h % 10));
            assert(cat.drop_last().last() == crate::text::digit_char(h / 10));
            assert(digits_val(cat.drop_last()) == digits_val(ds) * 10 + h / 10);
            assert(digits_val(cat) == (digits_val(ds) * 10 + h / 10) * 10 + h % 10);
            assert(digits_val(ds) == sc / 100);
            assert(h == (h / 10) * 10 + h % 10) by (nonlinear_arith)
                requires
                    h >= 0,
            ;
            assert(sc == (sc / 100) * 100 + sc % 100) by (nonlinear_arith)
                requires
                    sc >= 0,
            ;
            assert((sc / 100 * 10 + h / 10) * 10 + h % 10 == (sc / 100) * 100 + h)
                by (nonlinear_arith);
        }
    }
    assert(parse_float_spec(text) == Some(normal_dec(d.neg, sc as u64, 2)));
    lemma_normal_scaled2(d);
}

/// Rescaling a well-formed decimal with at most two fractional digits to
/// hundredths and normalizing gives the decimal back.
proof fn lemma_normal_scaled2(d: Decimal)
    requires
        d.well_formed(),
        d.scale <= 2,
        dec_scaled2(d) <= u64::MAX,
    ensures
        normal_dec(d.neg, dec_scaled2(d) as u64, 2) == d,
{
    let m = d.mantissa;
    let sc = dec_scaled2(d) as u64;
    if d.scale == 2 {
        assert(pow10(0) == 1);
        assert(sc == m);
        assert(m % 10 != 0);
        assert(m != 0);
    } else if d.scale == 1 {
        assert(pow10(0) == 1);
        assert(pow10(1) == 10);
        assert(sc == m * 10);
        assert((m * 10) % 10 == 0 && (m * 10) / 10 == m) by (nonlinear_arith);
        assert(m % 10 != 0);
        assert(m != 0);
        assert(normal_dec(d.neg, sc, 2) == normal_dec(d.neg, m, 1));
    } else {
        assert(pow10(2) == 100) by {
            assert(pow10(0) == 1);
            assert(pow10(1) == 10);
        }
        assert(sc == m * 100);
        assert((m * 100) % 10 == 0 && (m * 100) / 10 == m * 10) by (nonlinear_arith);
        assert((m * 10) % 10 == 0 && (m * 10) / 10 == m) by (nonlinear_arith);
        assert(normal_dec(d.neg, sc, 2) == normal_dec(d.neg, (m * 10) as u64, 1));
        assert(normal_dec(d.neg, (m * 10) as u64, 1) == normal_dec(d.neg, m, 0));
        if m == 0 {
            assert(!d.neg && d.scale == 0);
        }
    }
}

} // verus!

verus! {

/// Rendering a tagged value and parsing the rendering gives the tagged
/// value back, whenever its value round-trips.
pub proof fn lemma_tagged_display_parse(t: TaggedValueView)
    requires
        value_round_trips(t.value),
    ensures
        parse_tagged_spec(tagged_text(t)) == Ok::<TaggedValueView, ParseError>(t),
{
    lemma_value_text_token(t.value);
    assert(all_ws(seq![' ']));
    assert(all_ws(Seq::<char>::empty()));
    lemma_parse_tagged_operator(t.op, seq![' '], value_text(t.value), Seq::empty());
    assert(op_text(t.op) + seq![' '] + value_text(t.value) + Seq::empty() =~= tagged_text(t));
    lemma_value_display_parse(t.value);
}

/// The only space in a tagged value's text separates the operator from a
/// whitespace-free value, so no three-character ` m ` separator fits inside
/// it, and one can only straddle its end when the value is `m` itself.
proof fn lemma_tagged_text_shape(t: TaggedValueView, m: char)
    requires
        value_round_trips(t.value),
        m != ' ',
        !is_ws(m),
    ensures
        crate::text::sep_free(tagged_text(t), seq![' ', m, ' ']),
        value_text(t.value) != seq![m] ==> !crate::text::ends_with_sep_head(tagged_text(t), m),
        tagged_text(t).len() > 0,
        tagged_text(t)[0] == '!' || tagged_text(t)[0] == '<' || tagged_text(t)[0] == '>'
            || tagged_text(t)[0] == '=',
{
    lemma_op_text(t.op);
    lemma_value_text_token(t.value);
    let o = op_text(t.op);
    let v = value_text(t.value);
    let p = tagged_text(t);
    assert(p =~= o + seq![' '] + v);
    assert(p[0] == o[0]);
    assert forall|k: int| 0 <= k < p.len() && #[trigger] p[k] == ' ' implies k == o.len() by {
        if k < o.len() {
            assert(p[k] == o[k]);
            assert(!is_ws(o[k]));
        } else if k > o.len() {
            assert(p[k] == v[k - o.len() - 1]);
            assert(!is_ws(v[k - o.len() - 1]));
        }
    }
    assert forall|j: int| !crate::text::match_at(p, seq![' ', m, ' '], j) by {
        if crate::text::match_at(p, seq![' ', m, ' '], j) {
            assert(p.subrange(j, j + 3)[0] == p[j]);
            assert(p.subrange(j, j + 3)[2] == p[j + 2]);
            assert(p[j] == ' ' && p[j + 2] == ' ');
        }
    }
    if crate::text::ends_with_sep_head(p, m) {
        let n = p.len() as int;
        assert(p[n - 2] == ' ');
        assert(n - 2 == o.len());
        assert(v.len() == 1);
        assert(p[n - 1] == v[0]);
        assert(v =~= seq![m]);
    }
}

/// Rendering each tagged value and parsing the renderings gives the
/// sequence back.
proof fn lemma_parse_tagged_seq_display(l: Seq<TaggedValueView>)
    requires
        forall|i: int| 0 <= i < l.len() ==> value_round_trips((#[trigger] l[i]).value),
    ensures
        parse_tagged_seq(l.map_values(|t: TaggedValueView| tagged_text(t))) == Ok::<
            Seq<TaggedValueView>,
            ParseError,
        >(l),
    decreases l.len(),
{
    let f = |t: TaggedValueView| tagged_text(t);
    let parts = l.map_values(f);
    if l.len() == 0 {
        assert(parts =~= Seq::<Seq<char>>::empty());
        assert(l =~= Seq::<TaggedValueView>::empty());
        assert(parse_tagged_seq(parts) == Ok::<Seq<TaggedValueView>, ParseError>(
            Seq::<TaggedValueView>::empty(),
        ));
    } else {
        assert(parts[0] == tagged_text(l[0]));
        lemma_tagged_display_parse(l[0]);
        assert(parts.drop_first() =~= l.drop_first().map_values(f));
        lemma_parse_tagged_seq_display(l.drop_first());
        assert(seq![l[0]] + l.drop_first() =~= l);
    }
}

/// A separator-free sequence splits into itself alone.
proof fn lemma_split_sep_free(s: Seq<char>, sep: Seq<char>)
    requires
        sep.len() > 0,
        crate::text::sep_free(s, sep),
    ensures
        crate::text::split_sep(s, sep) =~= seq![s],
{
    crate::text::lemma_find_sep(s, sep);
    if crate::text::find_sep(s, sep) is Some {
        let j = crate::text::find_sep(s, sep)->Some_0;
        assert(crate::text::match_at(s, sep, j));
    }
}

/// Joining parts with one separator introduces no occurrence of another,
/// provided no part contains, half-starts, or opens with the other.
proof fn lemma_join_other_sep_free(parts: Seq<Seq<char>>, mj: char, mo: char)
    requires
        parts.len() >= 1,
        !is_ws(mj),
        !is_ws(mo),
        mj != mo,
        forall|k: int|
            0 <= k < parts.len() ==> crate::text::sep_free(#[trigger] parts[k], seq![' ', mo, ' ']),
        forall|k: int|
            0 <= k < parts.len() ==> !crate::text::ends_with_sep_head(#[trigger] parts[k], mo),
        forall|k: int|
            0 <= k < parts.len() ==> ((#[trigger] parts[k]).len() > 0 && parts[k][0] != mo
                && parts[k][0] != ' '),
    ensures
        crate::text::sep_free(crate::text::join_sep(parts, seq![' ', mj, ' ']), seq![' ', mo, ' ']),
        crate::text::join_sep(parts, seq![' ', mj, ' ']).len() > 0,
        crate::text::join_sep(parts, seq![' ', mj, ' '])[0] == parts[0][0],
    decreases parts.len(),
{
    let sepj = seq![' ', mj, ' '];
    let sepo = seq![' ', mo, ' '];
    let s = crate::text::join_sep(parts, sepj);
    if parts.len() == 1 {
        assert(s == parts[0]);
    } else {
        let p = parts[0];
        let pl = p.len() as int;
        assert forall|k: int|
            0 <= k < parts.drop_first().len() implies crate::text::sep_free(
            #[trigger] parts.drop_first()[k],
            sepo,
        ) && !crate::text::ends_with_sep_head(parts.drop_first()[k], mo)
            && parts.drop_first()[k].len() > 0 && parts.drop_first()[k][0] != mo
            && parts.drop_first()[k][0] != ' ' by {
            assert(parts.drop_first()[k] == parts[k + 1]);
        }
        lemma_join_other_sep_free(parts.drop_first(), mj, mo);
        let rest = crate::text::join_sep(parts.drop_first(), sepj);
        assert(s == p + sepj + rest);
        assert(rest[0] == parts.drop_first()[0][0]);
        assert(rest[0] == parts[1][0]);
        assert forall|j: int| !crate::text::match_at(s, sepo, j) by {
            if crate::text::match_at(s, sepo, j) {
                assert(s.subrange(j, j + 3)[0] == s[j]);
                assert(s.subrange(j, j + 3)[1] == s[j + 1]);
                assert(s.subrange(j, j + 3)[2] == s[j + 2]);
                assert(s[j] == ' ' && s[j + 1] == mo && s[j + 2] == ' ');
                if j + 3 <= pl {
                    assert(crate::text::match_at(p, sepo, j)) by {
                        assert(p.subrange(j, j + 3) =~= s.subrange(j, j + 3));
                    }
                } else if j == pl - 2 {
                    assert(s[j] == p[pl - 2] && s[j + 1] == p[pl - 1]);
                    assert(crate::text::ends_with_sep_head(p, mo));
                } else if j == pl - 1 {
                    assert(s[j + 1] == sepj[0]);
                } else if j == pl {
                    assert(s[j + 1] == sepj[1]);
                } else if j == pl + 1 {
                    assert(s[j] == sepj[1]);
                } else if j == pl + 2 {
                    assert(s[j + 1] == rest[0]);
                } else {
                    assert(j >= pl + 3);
                    assert(crate::text::match_at(rest, sepo, j - pl - 3)) by {
                        assert(rest.subrange(j - pl - 3, j - pl) =~= s.subrange(j, j + 3));
                    }
                }
            }
        }
        assert(s[0] == p[0]);
    }
}

/// The combinators whose canonical text parses back to them: every tagged
/// value round-trips, a disjunction or conjunction has at least two of
/// them, none of their values is the bare separator character `|` (nor `&`
/// inside a conjunction).
pub open spec fn wrapped_round_trips(w: WrappedValueView) -> bool {
    match w {
        WrappedValueView::Single(t) => value_round_trips(t.value),
        WrappedValueView::Or(l) => l.len() >= 2 && forall|i: int|
            0 <= i < l.len() ==> (value_round_trips((#[trigger] l[i]).value) && value_text(
                l[i].value,
            ) != seq!['|']),
        WrappedValueView::And(l) => l.len() >= 2 && forall|i: int|
            0 <= i < l.len() ==> (value_round_trips((#[trigger] l[i]).value) && value_text(
                l[i].value,
            ) != seq!['|'] && value_text(l[i].value) != seq!['&']),
    }
}

/// Rendering a combinator and parsing the rendering gives the combinator
/// back, whenever it round-trips.
pub proof fn lemma_wrapped_display_parse(w: WrappedValueView)
    requires
        wrapped_round_trips(w),
    ensures
        parse_wrapped_spec(wrapped_text(w)) == Ok::<WrappedValueView, ParseError>(w),
{
    let f = |t: TaggedValueView| tagged_text(t);
    match w {
        WrappedValueView::Single(t) => {
            let text = tagged_text(t);
            lemma_tagged_text_shape(t, '|');
            lemma_tagged_text_shape(t, '&');
            lemma_split_sep_free(text, seq![' ', '|', ' ']);
            lemma_split_sep_free(text, seq![' ', '&', ' ']);
            lemma_tagged_display_parse(t);
        },
        WrappedValueView::Or(l) => {
            let parts = l.map_values(f);
            assert forall|k: int|
                0 <= k < parts.len() implies crate::text::sep_free(
                #[trigger] parts[k],
                seq![' ', '|', ' '],
            ) && !crate::text::ends_with_sep_head(parts[k], '|') by {
                assert(parts[k] == tagged_text(l[k]));
                lemma_tagged_text_shape(l[k], '|');
            }
            crate::text::lemma_split_join(parts, '|');
            lemma_parse_tagged_seq_display(l);
            assert(parts.len() == l.len());
        },
        WrappedValueView::And(l) => {
            let parts = l.map_values(f);
            assert forall|k: int|
                0 <= k < parts.len() implies crate::text::sep_free(
                #[trigger] parts[k],
                seq![' ', '|', ' '],
            ) && !crate::text::ends_with_sep_head(parts[k], '|') && crate::text::sep_free(
                parts[k],
                seq![' ', '&', ' '],
            ) && !crate::text::ends_with_sep_head(parts[k], '&') && parts[k].len() > 0 && parts[k][0]
                != '|' && parts[k][0] != ' ' by {
                assert(parts[k] == tagged_text(l[k]));
                lemma_tagged_text_shape(l[k], '|');
                lemma_tagged_text_shape(l[k], '&');
            }
            let text = crate::text::join_sep(parts, seq![' ', '&', ' ']);
            lemma_join_other_sep_free(parts, '&', '|');
            lemma_split_sep_free(text, seq![' ', '|', ' ']);
            crate::text::lemma_split_join(parts, '&');
            lemma_parse_tagged_seq_display(l);
            assert(parts.len() == l.len());
        },
    }
}

} // verus!

verus! {

use crate::rules::print::{print_both_spec, print_count_spec, print_either_spec};
use crate::rules::Rule;

/// An either rule is the two-child count rule with threshold one: the
/// renderers treat the two shapes identically.
pub proof fn lemma_count_two_one_is_either(a: Rule, b: Rule)
    ensures
        print_count_spec(1, seq![a, b]) == print_either_spec(a, b),
{
    let l = seq![a, b];
    assert(l[0] == a && l[1] == b);
}

/// A both rule is the two-child count rule with threshold two.
pub proof fn lemma_count_two_two_is_both(a: Rule, b: Rule)
    ensures
        print_count_spec(2, seq![a, b]) == print_both_spec(a, b),
{
    let l = seq![a, b];
    assert(l[0] == a && l[1] == b);
}

} // verus!
