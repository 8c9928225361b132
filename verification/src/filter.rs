//! Filter clauses: a mapping from attribute names to combinators of typed
//! comparisons, used to test whether a transcript entry matches. A clause
//! matches an entry exactly when every attribute it names compares true
//! against the entry's value for that attribute.

use vstd::prelude::*;

use crate::decimal::Decimal;
use crate::value::{
    chars_eq, parse_wrapped_spec, wrapped_wf, Operator, Value, ValueView, WrappedValue,
    WrappedValueView,
};
use crate::ParseError;

verus! {

/// A filter clause: attribute name to combinator, unique names, insertion
/// order kept.
#[derive(Debug, PartialEq, Clone)]
pub struct Clause {
    pub pairs: Vec<(String, WrappedValue)>,
}

/// The association list a clause stands for.
pub open spec fn clause_view(pairs: Seq<(String, WrappedValue)>) -> Seq<
    (Seq<char>, WrappedValueView),
> {
    pairs.map_values(|p: (String, WrappedValue)| (p.0@, p.1@))
}

/// The value an entry association list holds for `key`.
pub open spec fn assoc_value(l: Seq<(Seq<char>, ValueView)>, key: Seq<char>) -> Option<ValueView>
    decreases l.len(),
{
    if l.len() == 0 {
        None
    } else if l[0].0 == key {
        Some(l[0].1)
    } else {
        assoc_value(l.drop_first(), key)
    }
}

/// The entry's attributes as an association list.
pub open spec fn entry_view(entry: Seq<(String, Value)>) -> Seq<(Seq<char>, ValueView)> {
    entry.map_values(|p: (String, Value)| (p.0@, p.1@))
}

/// The decimal a value denotes numerically, if it is numeric: an integer
/// counts as the decimal with no fractional digits.
pub open spec fn as_decimal(v: ValueView) -> Option<Decimal> {
    match v {
        ValueView::Integer(n) => Some(crate::decimal::normal_dec(false, n, 0)),
        ValueView::Float(d) => Some(d),
        _ => None,
    }
}

/// One comparison of an entry value against a clause value: equality and
/// inequality are structural; the ordering operators hold only between two
/// numeric values, under numeric ordering.
pub open spec fn compare_spec(op: Operator, a: ValueView, b: ValueView) -> bool {
    match op {
        Operator::EqualTo => a == b,
        Operator::NotEqualTo => a != b,
        _ => {
            match (as_decimal(a), as_decimal(b)) {
                (Some(x), Some(y)) => {
                    match op {
                        Operator::GreaterThan => y.scaled_value() < x.scaled_value(),
                        Operator::GreaterThanEqualTo => y.scaled_value() <= x.scaled_value(),
                        Operator::LessThan => x.scaled_value() < y.scaled_value(),
                        Operator::LessThanEqualTo => x.scaled_value() <= y.scaled_value(),
                        _ => false,
                    }
                },
                _ => false,
            }
        },
    }
}

/// Whether an entry value satisfies a combinator: a single comparison must
/// hold, a disjunction needs one of its comparisons, a conjunction all.
pub open spec fn wrapped_matches_spec(w: WrappedValueView, v: ValueView) -> bool {
    match w {
        WrappedValueView::Single(t) => compare_spec(t.op, v, t.value),
        WrappedValueView::Or(l) => exists|i: int|
            0 <= i < l.len() && compare_spec((#[trigger] l[i]).op, v, l[i].value),
        WrappedValueView::And(l) => forall|i: int|
            0 <= i < l.len() ==> compare_spec((#[trigger] l[i]).op, v, l[i].value),
    }
}

/// Whether an entry satisfies a clause: every attribute the clause names
/// must be present in the entry and satisfy its combinator.
pub open spec fn clause_matches_spec(
    c: Seq<(Seq<char>, WrappedValueView)>,
    entry: Seq<(Seq<char>, ValueView)>,
) -> bool {
    forall|i: int|
        0 <= i < c.len() ==> match assoc_value(entry, (#[trigger] c[i]).0) {
            Some(v) => wrapped_matches_spec(c[i].1, v),
            None => false,
        }
}

/// Structural equality of two values.
pub fn value_eq(a: &Value, b: &Value) -> (r: bool)
    ensures
        r == (a@ == b@),
{
    match (a, b) {
        (Value::Constant(x), Value::Constant(y)) => x == y,
        (Value::Bool(x), Value::Bool(y)) => x == y,
        (Value::Integer(x), Value::Integer(y)) => x == y,
        (Value::Float(x), Value::Float(y)) => x == y,
        (Value::String(x), Value::String(y)) => {
            let xc = crate::text::chars_of(x.as_str());
            let yc = crate::text::chars_of(y.as_str());
            chars_eq(xc.as_slice(), yc.as_slice())
        },
        _ => false,
    }
}

/// One comparison of an entry value against a clause value (see
/// [`compare_spec`]).
pub fn compare(op: Operator, a: &Value, b: &Value) -> (r: bool)
    requires
        crate::value::value_wf(a@),
        crate::value::value_wf(b@),
    ensures
        r == compare_spec(op, a@, b@),
{
    match op {
        Operator::EqualTo => value_eq(a, b),
        Operator::NotEqualTo => !value_eq(a, b),
        _ => {
            let x: Decimal = match a {
                Value::Integer(n) => Decimal::new(false, *n, 0),
                Value::Float(d) => *d,
                _ => {
                    return false;
                },
            };
            let y: Decimal = match b {
                Value::Integer(n) => Decimal::new(false, *n, 0),
                Value::Float(d) => *d,
                _ => {
                    return false;
                },
            };
            match op {
                Operator::GreaterThan => y.lt(&x),
                Operator::GreaterThanEqualTo => !x.lt(&y),
                Operator::LessThan => x.lt(&y),
                Operator::LessThanEqualTo => !y.lt(&x),
                _ => false,
            }
        },
    }
}

} // verus!

verus! {

/// Whether an entry value satisfies a combinator (see
/// [`wrapped_matches_spec`]).
pub fn wrapped_matches(w: &WrappedValue, v: &Value) -> (r: bool)
    requires
        wrapped_wf(w@),
        crate::value::value_wf(v@),
    ensures
        r == wrapped_matches_spec(w@, v@),
{
    proof {
        crate::value::lemma_wrapped_wf_elements(w@);
    }
    match w {
        WrappedValue::Single(t) => compare(t.op, v, &t.value),
        WrappedValue::Or(l) => {
            proof {
                assert(w@->Or_0 == l.deep_view());
            }
            let mut i: usize = 0;
            while i < l.len()
                invariant
                    i <= l@.len(),
                    l.deep_view().len() == l@.len(),
                    crate::value::value_wf(v@),
                    w@ == WrappedValueView::Or(l.deep_view()),
                    forall|k: int|
                        0 <= k < l.deep_view().len() ==> crate::value::tagged_wf(
                            #[trigger] l.deep_view()[k],
                        ),
                    forall|k: int|
                        0 <= k < i ==> !compare_spec(
                            (#[trigger] l.deep_view()[k]).op,
                            v@,
                            l.deep_view()[k].value,
                        ),
                decreases l@.len() - i,
            {
                proof {
                    assert(l@[i as int]@ == l.deep_view()[i as int]);
                }
                if compare(l[i].op, v, &l[i].value) {
                    proof {
                        assert(compare_spec((w@->Or_0)[i as int].op, v@, (w@->Or_0)[i as int].value));
                    }
                    return true;
                }
                i += 1;
            }
            proof {
                assert forall|k: int| 0 <= k < (w@->Or_0).len() implies !compare_spec(
                    (#[trigger] (w@->Or_0)[k]).op,
                    v@,
                    (w@->Or_0)[k].value,
                ) by {
                    assert(!compare_spec(l.deep_view()[k].op, v@, l.deep_view()[k].value));
                }
            }
            false
        },
        WrappedValue::And(l) => {
            proof {
                assert(w@->And_0 == l.deep_view());
            }
            let mut i: usize = 0;
            while i < l.len()
                invariant
                    i <= l@.len(),
                    l.deep_view().len() == l@.len(),
                    crate::value::value_wf(v@),
                    w@ == WrappedValueView::And(l.deep_view()),
                    forall|k: int|
                        0 <= k < l.deep_view().len() ==> crate::value::tagged_wf(
                            #[trigger] l.deep_view()[k],
                        ),
                    forall|k: int|
                        0 <= k < i ==> compare_spec(
                            (#[trigger] l.deep_view()[k]).op,
                            v@,
                            l.deep_view()[k].value,
                        ),
                decreases l@.len() - i,
            {
                proof {
                    assert(l@[i as int]@ == l.deep_view()[i as int]);
                }
                if !compare(l[i].op, v, &l[i].value) {
                    proof {
                        assert(!compare_spec(
                            (w@->And_0)[i as int].op,
                            v@,
                            (w@->And_0)[i as int].value,
                        ));
                    }
                    return false;
                }
                i += 1;
            }
            proof {
                assert forall|k: int| 0 <= k < (w@->And_0).len() implies compare_spec(
                    (#[trigger] (w@->And_0)[k]).op,
                    v@,
                    (w@->And_0)[k].value,
                ) by {
                    assert(compare_spec(l.deep_view()[k].op, v@, l.deep_view()[k].value));
                }
            }
            true
        },
    }
}

impl Clause {
    /// Well-formedness: attribute names are unique and every held value is
    /// well-formed.
    pub open spec fn wf(&self) -> bool {
        &&& forall|i: int, j: int|
            0 <= i < j < self.pairs@.len() ==> (#[trigger] self.pairs@[i]).0@ != (
            #[trigger] self.pairs@[j]).0@
        &&& forall|i: int| 0 <= i < self.pairs@.len() ==> wrapped_wf((#[trigger] self.pairs@[i]).1@)
    }

    /// The association list this clause stands for.
    pub open spec fn view_pairs(&self) -> Seq<(Seq<char>, WrappedValueView)> {
        clause_view(self.pairs@)
    }

    /// The empty clause, which every entry matches.
    pub fn new() -> (r: Clause)
        ensures
            r.wf(),
            r.view_pairs() =~= Seq::<(Seq<char>, WrappedValueView)>::empty(),
    {
        Clause { pairs: Vec::new() }
    }

    /// Binds `key` to `w`, replacing any earlier binding of the same name.
    pub fn insert(&mut self, key: String, w: WrappedValue)
        requires
            old(self).wf(),
            wrapped_wf(w@),
        ensures
            final(self).wf(),
            final(self).view_pairs() == (match assoc_index(old(self).view_pairs(), key@) {
                Some(i) => old(self).view_pairs().update(i, (key@, w@)),
                None => old(self).view_pairs().push((key@, w@)),
            }),
    {
        let kc = crate::text::chars_of(key.as_str());
        let mut i: usize = 0;
        while i < self.pairs.len()
            invariant
                i <= self.pairs@.len(),
                kc@ == key@,
                forall|k: int| 0 <= k < i ==> (#[trigger] self.pairs@[k]).0@ != key@,
                self == old(self),
                self.wf(),
                wrapped_wf(w@),
            decreases self.pairs@.len() - i,
        {
            let pc = crate::text::chars_of(self.pairs[i].0.as_str());
            if chars_eq(pc.as_slice(), kc.as_slice()) {
                proof {
                    assert forall|k: int| 0 <= k < i implies (#[trigger] clause_view(
                        self.pairs@,
                    )[k]).0 != key@ by {
                        assert(clause_view(self.pairs@)[k].0 == self.pairs@[k].0@);
                    }
                    assert(clause_view(self.pairs@)[i as int].0 == self.pairs@[i as int].0@);
                    lemma_assoc_index_at(clause_view(self.pairs@), key@, i as int);
                }
                let ghost pre = self.pairs@;
                self.pairs.set(i, (key, w));
                proof {
                    assert(clause_view(self.pairs@) =~= clause_view(pre).update(
                        i as int,
                        (key@, w@),
                    ));
                    assert(pre[i as int].0@ == key@);
                    assert forall|a: int, b: int|
                        0 <= a < b < self.pairs@.len() implies (#[trigger] self.pairs@[a]).0@ != (
                    #[trigger] self.pairs@[b]).0@ by {
                        if a != i && b != i {
                            assert(self.pairs@[a] == pre[a] && self.pairs@[b] == pre[b]);
                        } else if a == i {
                            assert(self.pairs@[a].0@ == pre[a].0@ && self.pairs@[b] == pre[b]);
                        } else {
                            assert(self.pairs@[b].0@ == pre[b].0@ && self.pairs@[a] == pre[a]);
                        }
                    }
                    assert forall|k: int|
                        0 <= k < self.pairs@.len() implies wrapped_wf(
                        (#[trigger] self.pairs@[k]).1@,
                    ) by {
                        if k != i {
                            assert(self.pairs@[k] == pre[k]);
                        }
                    }
                }
                return ;
            }
            i += 1;
        }
        proof {
            assert forall|k: int|
                0 <= k < clause_view(self.pairs@).len() implies (#[trigger] clause_view(
                self.pairs@,
            )[k]).0 != key@ by {
                assert(clause_view(self.pairs@)[k].0 == self.pairs@[k].0@);
            }
            lemma_assoc_index_none(clause_view(self.pairs@), key@);
        }
        let ghost pre = self.pairs@;
        self.pairs.push((key, w));
        proof {
            assert(clause_view(self.pairs@) =~= clause_view(pre).push((key@, w@)));
        }
    }

    /// Whether `entry` satisfies this clause (see [`clause_matches_spec`]).
    pub fn matches(&self, entry: &Vec<(String, Value)>) -> (r: bool)
        requires
            self.wf(),
            forall|i: int|
                0 <= i < entry@.len() ==> crate::value::value_wf((#[trigger] entry@[i]).1@),
        ensures
            r == clause_matches_spec(self.view_pairs(), entry_view(entry@)),
    {
        let n = self.pairs.len();
        let mut i: usize = 0;
        while i < n
            invariant
                i <= n,
                n == self.pairs@.len(),
                self.wf(),
                forall|k: int|
                    0 <= k < entry@.len() ==> crate::value::value_wf((#[trigger] entry@[k]).1@),
                forall|k: int|
                    0 <= k < i ==> match assoc_value(
                        entry_view(entry@),
                        (#[trigger] self.view_pairs()[k]).0,
                    ) {
                        Some(v) => wrapped_matches_spec(self.view_pairs()[k].1, v),
                        None => false,
                    },
            decreases n - i,
        {
            proof {
                assert(self.view_pairs()[i as int] == (self.pairs@[i as int].0@, self.pairs@[
                    i as int].1@));
                assert(wrapped_wf(self.pairs@[i as int].1@));
            }
            let key = &self.pairs[i].0;
            match lookup_entry(entry, key) {
                Some(idx) => {
                    proof {
                        assert(crate::value::value_wf(entry@[idx as int].1@));
                    }
                    if !wrapped_matches(&self.pairs[i].1, &entry[idx].1) {
                        return false;
                    }
                },
                None => {
                    return false;
                },
            }
            i += 1;
        }
        true
    }
}

/// The position of the first binding of `key`, if any.
pub open spec fn assoc_index(l: Seq<(Seq<char>, WrappedValueView)>, key: Seq<char>) -> Option<int>
    decreases l.len(),
{
    if l.len() == 0 {
        None
    } else if l[0].0 == key {
        Some(0int)
    } else {
        match assoc_index(l.drop_first(), key) {
            Some(i) => Some(i + 1),
            None => None,
        }
    }
}

proof fn lemma_assoc_index_at(l: Seq<(Seq<char>, WrappedValueView)>, key: Seq<char>, i: int)
    requires
        0 <= i < l.len(),
        l[i].0 == key,
        forall|k: int| 0 <= k < i ==> (#[trigger] l[k]).0 != key,
    ensures
        assoc_index(l, key) == Some(i),
    decreases i,
{
    if i == 0 {
    } else {
        assert(l[0].0 != key);
        assert(l.drop_first()[i - 1] == l[i]);
        assert forall|k: int| 0 <= k < i - 1 implies (#[trigger] l.drop_first()[k]).0 != key by {
            assert(l.drop_first()[k] == l[k + 1]);
        }
        lemma_assoc_index_at(l.drop_first(), key, i - 1);
    }
}

proof fn lemma_assoc_index_none(l: Seq<(Seq<char>, WrappedValueView)>, key: Seq<char>)
    requires
        forall|k: int| 0 <= k < l.len() ==> (#[trigger] l[k]).0 != key,
    ensures
        assoc_index(l, key) is None,
    decreases l.len(),
{
    if l.len() > 0 {
        assert forall|k: int|
            0 <= k < l.drop_first().len() implies (#[trigger] l.drop_first()[k]).0 != key by {
            assert(l.drop_first()[k] == l[k + 1]);
        }
        lemma_assoc_index_none(l.drop_first(), key);
    }
}

/// The position of the entry attribute named `key`, if any, matching
/// [`assoc_value`]'s scan.
fn lookup_entry(entry: &Vec<(String, Value)>, key: &String) -> (r: Option<usize>)
    ensures
        match r {
            Some(i) => i < entry@.len() && entry@[i as int].0@ == key@ && assoc_value(
                entry_view(entry@),
                key@,
            ) == Some(entry@[i as int].1@),
            None => assoc_value(entry_view(entry@), key@) is None,
        },
{
    let kc = crate::text::chars_of(key.as_str());
    let mut i: usize = 0;
    while i < entry.len()
        invariant
            i <= entry@.len(),
            kc@ == key@,
            forall|k: int| 0 <= k < i ==> (#[trigger] entry_view(entry@)[k]).0 != key@,
        decreases entry@.len() - i,
    {
        let pc = crate::text::chars_of(entry[i].0.as_str());
        if chars_eq(pc.as_slice(), kc.as_slice()) {
            proof {
                lemma_assoc_value_at(entry_view(entry@), key@, i as int);
                assert(entry_view(entry@)[i as int] == (entry@[i as int].0@, entry@[i as int].1@));
            }
            return Some(i);
        }
        proof {
            assert(entry_view(entry@)[i as int] == (entry@[i as int].0@, entry@[i as int].1@));
        }
        i += 1;
    }
    proof {
        lemma_assoc_value_none(entry_view(entry@), key@);
    }
    None
}

proof fn lemma_assoc_value_at(l: Seq<(Seq<char>, ValueView)>, key: Seq<char>, i: int)
    requires
        0 <= i < l.len(),
        l[i].0 == key,
        forall|k: int| 0 <= k < i ==> (#[trigger] l[k]).0 != key,
    ensures
        assoc_value(l, key) == Some(l[i].1),
    decreases i,
{
    if i == 0 {
    } else {
        assert(l[0].0 != key);
        assert(l.drop_first()[i - 1] == l[i]);
        assert forall|k: int| 0 <= k < i - 1 implies (#[trigger] l.drop_first()[k]).0 != key by {
            assert(l.drop_first()[k] == l[k + 1]);
        }
        lemma_assoc_value_at(l.drop_first(), key, i - 1);
    }
}

proof fn lemma_assoc_value_none(l: Seq<(Seq<char>, ValueView)>, key: Seq<char>)
    requires
        forall|k: int| 0 <= k < l.len() ==> (#[trigger] l[k]).0 != key,
    ensures
        assoc_value(l, key) is None,
    decreases l.len(),
{
    if l.len() > 0 {
        assert forall|k: int|
            0 <= k < l.drop_first().len() implies (#[trigger] l.drop_first()[k]).0 != key by {
            assert(l.drop_first()[k] == l[k + 1]);
        }
        lemma_assoc_value_none(l.drop_first(), key);
    }
}

} // verus!

verus! {

/// The textual attribute map a clause is parsed from.
pub open spec fn text_pairs_view(pairs: Seq<(String, String)>) -> Seq<(Seq<char>, Seq<char>)> {
    pairs.map_values(|p: (String, String)| (p.0@, p.1@))
}

/// Binding `key` to `w` in an association list: replace the first binding
/// of the same name, or append.
pub open spec fn insert_spec(
    c: Seq<(Seq<char>, WrappedValueView)>,
    key: Seq<char>,
    w: WrappedValueView,
) -> Seq<(Seq<char>, WrappedValueView)> {
    match assoc_index(c, key) {
        Some(i) => c.update(i, (key, w)),
        None => c.push((key, w)),
    }
}

/// The clause a textual attribute map denotes: each value string parses as
/// a combinator and is bound to its attribute in order, later bindings of a
/// repeated name replacing earlier ones; the first failure is the map's.
pub open spec fn parse_clause_spec(l: Seq<(Seq<char>, Seq<char>)>) -> Result<
    Seq<(Seq<char>, WrappedValueView)>,
    ParseError,
>
    decreases l.len(),
{
    if l.len() == 0 {
        Ok(Seq::empty())
    } else {
        match parse_clause_spec(l.drop_last()) {
            Err(e) => Err(e),
            Ok(c) => match parse_wrapped_spec(l.last().1) {
                Ok(w) => Ok(insert_spec(c, l.last().0, w)),
                Err(e) => Err(e),
            },
        }
    }
}

/// Parses a textual attribute map into a clause.
pub fn parse_clause(pairs: &Vec<(String, String)>) -> (r: Result<Clause, ParseError>)
    ensures
        (match r {
            Ok(c) => c.wf() && parse_clause_spec(text_pairs_view(pairs@)) == Ok::<_, ParseError>(
                c.view_pairs(),
            ),
            Err(e) => parse_clause_spec(text_pairs_view(pairs@)) == Err::<
                Seq<(Seq<char>, WrappedValueView)>,
                ParseError,
            >(e),
        }),
{
    let mut c = Clause::new();
    let mut i: usize = 0;
    proof {
        assert(text_pairs_view(pairs@).take(0int) =~= Seq::<(Seq<char>, Seq<char>)>::empty());
    }
    while i < pairs.len()
        invariant
            i <= pairs@.len(),
            c.wf(),
            parse_clause_spec(text_pairs_view(pairs@).take(i as int)) == Ok::<_, ParseError>(
                c.view_pairs(),
            ),
        decreases pairs@.len() - i,
    {
        proof {
            let tv = text_pairs_view(pairs@);
            assert(tv[i as int] == (pairs@[i as int].0@, pairs@[i as int].1@));
            assert(tv.take(i + 1).drop_last() =~= tv.take(i as int));
            assert(tv.take(i + 1).last() == tv[i as int]);
        }
        let vtext = crate::text::chars_of(pairs[i].1.as_str());
        match crate::value::parse_wrapped_chars(vtext.as_slice()) {
            Ok(w) => {
                c.insert(pairs[i].0.clone(), w);
            },
            Err(e) => {
                proof {
                    let tv = text_pairs_view(pairs@);
                    lemma_parse_clause_prefix_err(tv, i as int, e);
                }
                return Err(e);
            },
        }
        i += 1;
    }
    proof {
        assert(text_pairs_view(pairs@).take(pairs@.len() as int) =~= text_pairs_view(pairs@));
    }
    Ok(c)
}

/// A failure on one pair decides every extension of the map.
proof fn lemma_parse_clause_prefix_err(l: Seq<(Seq<char>, Seq<char>)>, i: int, e: ParseError)
    requires
        0 <= i < l.len(),
        parse_clause_spec(l.take(i)) is Ok,
        parse_wrapped_spec(l[i].1) == Err::<WrappedValueView, ParseError>(e),
    ensures
        parse_clause_spec(l) == Err::<Seq<(Seq<char>, WrappedValueView)>, ParseError>(e),
    decreases l.len() - i,
{
    if i == l.len() - 1 {
        assert(l.drop_last() =~= l.take(i));
        assert(l.last() == l[i]);
    } else {
        assert(l.drop_last().take(i) =~= l.take(i));
        assert(l.drop_last()[i] == l[i]);
        lemma_parse_clause_prefix_err(l.drop_last(), i, e);
    }
}

} // verus!
