//! The rule tree: the closed set of node kinds that compose a program's
//! requirements — course, requirement reference, given/match, either, both,
//! and count-of-N — together with their shape predicates and the save-rule
//! scan that decides evaluation order.

use vstd::prelude::*;

use crate::filter::Clause;
use crate::value::{Operator, Value};

pub mod both;
pub mod either;
pub mod print;

verus! {

/// A course to take, named by its label.
#[derive(Debug, PartialEq, Clone)]
pub struct CourseRule {
    pub course: String,
}

/// A reference to a named requirement.
#[derive(Debug, PartialEq, Clone)]
pub struct ReqRefRule {
    pub requirement: String,
    pub optional: bool,
}

/// What a given/match rule counts or sums.
#[derive(Debug, PartialEq, Eq, Structural, Clone, Copy)]
pub enum GivenCoursesWhatOptions {
    Courses,
    Credits,
}

/// Whether repeated enrollments of one course all count, or only the first.
#[derive(Debug, PartialEq, Eq, Structural, Clone, Copy)]
pub enum RepeatMode {
    First,
    All,
}

/// The source collection a given/match rule draws from.
#[derive(Debug, PartialEq, Clone)]
pub enum Given {
    /// Every course on the transcript.
    AllCourses { what: GivenCoursesWhatOptions },
    /// A fixed list of course labels.
    TheseCourses { courses: Vec<String>, repeats: RepeatMode, what: GivenCoursesWhatOptions },
    /// A previously saved named collection.
    NamedVariable { save: String, what: GivenCoursesWhatOptions },
}

/// What a given/match rule measures over its filtered collection.
#[derive(Debug, PartialEq, Eq, Structural, Clone, Copy)]
pub enum Command {
    Count,
    Sum,
}

/// A threshold action such as `count >= 3` or `sum >= 3`.
#[derive(Debug, PartialEq, Clone)]
pub struct Action {
    pub command: Command,
    pub op: Operator,
    pub value: Value,
}

/// A given/match rule: a source collection, an optional filter over it, and
/// a threshold action on the filtered result.
#[derive(Debug, PartialEq, Clone)]
pub struct GivenRule {
    pub given: Given,
    pub filter: Option<Clause>,
    pub action: Action,
}

/// Leftover credit or count that an either rule may carry when one side
/// overshoots its need.
#[derive(Debug, PartialEq, Eq, Structural, Clone, Copy)]
pub struct Surplus {
    pub amount: u64,
}

/// An at-least-`count`-of-these rule.
pub struct CountOfRule {
    pub count: u64,
    pub of: Vec<Rule>,
}

/// A node of the rule tree.
pub enum Rule {
    Course(CourseRule),
    Requirement(ReqRefRule),
    Given(GivenRule),
    Either(either::Rule),
    Both(both::Rule),
    CountOf(CountOfRule),
}

impl Rule {
    /// Whether this rule or any rule below it draws on a saved collection,
    /// which decides evaluation order.
    pub open spec fn has_save_rule_spec(self) -> bool
        decreases self,
    {
        match self {
            Rule::Course(_) => false,
            Rule::Requirement(_) => false,
            Rule::Given(g) => g.given is NamedVariable,
            Rule::Either(e) => e.either.0.has_save_rule_spec() || e.either.1.has_save_rule_spec(),
            Rule::Both(b) => b.both.0.has_save_rule_spec() || b.both.1.has_save_rule_spec(),
            Rule::CountOf(c) => any_has_save_rule(c.of@),
        }
    }

    /// Executable save-rule scan.
    pub fn has_save_rule(&self) -> (r: bool)
        ensures
            r == self.has_save_rule_spec(),
        decreases *self,
    {
        match self {
            Rule::Course(_) => false,
            Rule::Requirement(_) => false,
            Rule::Given(g) => match g.given {
                Given::NamedVariable { .. } => true,
                _ => false,
            },
            Rule::Either(e) => e.has_save_rule(),
            Rule::Both(b) => b.has_save_rule(),
            Rule::CountOf(c) => any_save(c.of.as_slice()),
        }
    }
}

/// Whether any rule of the sequence draws on a saved collection.
pub open spec fn any_has_save_rule(l: Seq<Rule>) -> bool
    decreases l,
{
    if l.len() == 0 {
        false
    } else {
        l[0].has_save_rule_spec() || any_has_save_rule(l.drop_first())
    }
}

/// Executable save-rule scan over a sequence of rules.
fn any_save(l: &[Rule]) -> (r: bool)
    ensures
        r == any_has_save_rule(l@),
    decreases l@,
{
    if l.len() == 0 {
        false
    } else {
        if vstd::slice::slice_index_get(l, 0).has_save_rule() {
            true
        } else {
            let rest = vstd::slice::slice_subrange(l, 1, l.len());
            assert(rest@ =~= l@.drop_first());
            any_save(rest)
        }
    }
}

/// Shape predicates over a count-of node's children, used by the renderers.
pub open spec fn only_courses_spec(l: Seq<Rule>) -> bool {
    forall|i: int| 0 <= i < l.len() ==> (#[trigger] l[i]) is Course
}

pub open spec fn only_requirements_spec(l: Seq<Rule>) -> bool {
    forall|i: int| 0 <= i < l.len() ==> (#[trigger] l[i]) is Requirement
}

pub open spec fn only_courses_and_requirements_spec(l: Seq<Rule>) -> bool {
    forall|i: int| 0 <= i < l.len() ==> ((#[trigger] l[i]) is Course || l[i] is Requirement)
}

/// Whether a count-of node renders inline: three children, none of which is
/// itself a count-of node that would force block layout.
pub open spec fn should_be_inline_spec(l: Seq<Rule>) -> bool {
    2 < l.len() < 4 && forall|i: int| 0 <= i < l.len() ==> !((#[trigger] l[i]) is CountOf)
}

impl CountOfRule {
    /// Exactly one child.
    pub open spec fn is_single(&self) -> bool {
        self.of@.len() == 1
    }

    /// Two children of which one must pass.
    pub open spec fn is_either(&self) -> bool {
        self.of@.len() == 2 && self.count == 1
    }

    /// Two children which must both pass.
    pub open spec fn is_both(&self) -> bool {
        self.of@.len() == 2 && self.count == 2
    }

    /// More than two children of which one must pass.
    pub open spec fn is_any(&self) -> bool {
        self.of@.len() > 2 && self.count == 1
    }

    /// Every child must pass.
    pub open spec fn is_all(&self) -> bool {
        self.count == self.of@.len()
    }
}

} // verus!

verus! {

use crate::text::{chars_of, ws_tokens, tokenize};
use crate::value::{parse_op_spec, parse_value_spec, value_wf, ValueView};
use crate::ParseError;

/// The measure a token names, if it is in the closed action vocabulary.
pub open spec fn parse_command_spec(s: Seq<char>) -> Option<Command> {
    if s == "count"@ {
        Some(Command::Count)
    } else if s == "sum"@ {
        Some(Command::Sum)
    } else {
        None
    }
}

/// The threshold action a string denotes: a measure word, an operator, and
/// a value, separated by whitespace. An unknown measure is an unknown
/// command; any other malformed split is an invalid action.
pub open spec fn parse_action_spec(s: Seq<char>) -> Result<ActionView, ParseError> {
    let toks = ws_tokens(s);
    if toks.len() == 3 {
        match parse_command_spec(toks[0]) {
            None => Err(ParseError::UnknownCommand),
            Some(command) => match parse_op_spec(toks[1]) {
                None => Err(ParseError::InvalidAction),
                Some(op) => Ok(ActionView { command, op, value: parse_value_spec(toks[2]) }),
            },
        }
    } else {
        Err(ParseError::InvalidAction)
    }
}

/// The mathematical shape of an [`Action`].
pub struct ActionView {
    pub command: Command,
    pub op: crate::value::Operator,
    pub value: ValueView,
}

impl View for Action {
    type V = ActionView;

    open spec fn view(&self) -> ActionView {
        ActionView { command: self.command, op: self.op, value: self.value@ }
    }
}

impl Action {
    /// Well-formedness: the threshold value is well-formed.
    pub open spec fn wf(&self) -> bool {
        value_wf(self.value@)
    }

    /// Parses a threshold action such as `count >= 3`.
    pub fn parse(s: &str) -> (r: Result<Action, ParseError>)
        ensures
            (match r {
                Ok(a) => parse_action_spec(s@) == Ok::<ActionView, ParseError>(a@) && a.wf(),
                Err(e) => parse_action_spec(s@) == Err::<ActionView, ParseError>(e),
            }),
    {
        let cs = chars_of(s);
        let toks = tokenize(cs.as_slice());
        if toks.len() != 3 {
            return Err(ParseError::InvalidAction);
        }
        proof {
            assert(toks@[0]@ =~= toks.deep_view()[0]);
            assert(toks@[1]@ =~= toks.deep_view()[1]);
            assert(toks@[2]@ =~= toks.deep_view()[2]);
        }
        let count_word = chars_of("count");
        let sum_word = chars_of("sum");
        let command = if crate::value::chars_eq(toks[0].as_slice(), count_word.as_slice()) {
            Command::Count
        } else if crate::value::chars_eq(toks[0].as_slice(), sum_word.as_slice()) {
            Command::Sum
        } else {
            return Err(ParseError::UnknownCommand);
        };
        let op = match crate::value::Operator::parse_token(toks[1].as_slice()) {
            Some(op) => op,
            None => {
                return Err(ParseError::InvalidAction);
            },
        };
        let value = crate::value::parse_value_chars(toks[2].as_slice());
        Ok(Action { command, op, value })
    }
}

impl core::str::FromStr for Action {
    type Err = ParseError;

    fn from_str(s: &str) -> (r: Result<Action, ParseError>) {
        Action::parse(s)
    }
}

} // verus!

verus! {

use crate::decimal::{dec_scaled2, parse_float_spec, Decimal};
use crate::filter::{clause_matches_spec, entry_view};
use crate::rule::RuleStatus;
use crate::student::Course;


/// The attributes of a course that a filter clause can name, as an
/// association list: the subject, number, name, semester and term, year,
/// short institution name, grade code, course type, the full label, and the
/// numeric level.
pub open spec fn course_entry_spec(c: Course) -> Seq<(Seq<char>, ValueView)> {
    seq![
        ("subject"@, ValueView::String(c.subject@)),
        ("number"@, ValueView::String(c.number@)),
        ("name"@, ValueView::String(c.name@)),
        ("semester"@, ValueView::String(c.term@)),
        ("term"@, ValueView::String(c.term@)),
        ("year"@, ValueView::String(c.year@)),
        ("institution"@, ValueView::String(c.institution_short@)),
        ("grade"@, ValueView::String(c.grade_code@)),
        ("type"@, ValueView::String(c.course_type@)),
        ("course"@, ValueView::String(c.course@)),
        ("level"@, ValueView::Integer(c.level)),
    ]
}

/// Builds the filterable attributes of a course (see
/// [`course_entry_spec`]).
pub fn course_entry(c: &Course) -> (r: Vec<(String, Value)>)
    ensures
        entry_view(r@) =~= course_entry_spec(*c),
        forall|i: int| 0 <= i < r@.len() ==> crate::value::value_wf((#[trigger] r@[i]).1@),
{
    let mut r: Vec<(String, Value)> = Vec::new();
    r.push((lit_string("subject"), Value::String(c.subject.clone())));
    r.push((lit_string("number"), Value::String(c.number.clone())));
    r.push((lit_string("name"), Value::String(c.name.clone())));
    r.push((lit_string("semester"), Value::String(c.term.clone())));
    r.push((lit_string("term"), Value::String(c.term.clone())));
    r.push((lit_string("year"), Value::String(c.year.clone())));
    r.push((lit_string("institution"), Value::String(c.institution_short.clone())));
    r.push((lit_string("grade"), Value::String(c.grade_code.clone())));
    r.push((lit_string("type"), Value::String(c.course_type.clone())));
    r.push((lit_string("course"), Value::String(c.course.clone())));
    r.push((lit_string("level"), Value::Integer(c.level)));
    proof {
        assert(entry_view(r@).len() == 11);
        assert(entry_view(r@)[0] == (r@[0].0@, r@[0].1@));
        assert(entry_view(r@)[1] == (r@[1].0@, r@[1].1@));
        assert(entry_view(r@)[2] == (r@[2].0@, r@[2].1@));
        assert(entry_view(r@)[3] == (r@[3].0@, r@[3].1@));
        assert(entry_view(r@)[4] == (r@[4].0@, r@[4].1@));
        assert(entry_view(r@)[5] == (r@[5].0@, r@[5].1@));
        assert(entry_view(r@)[6] == (r@[6].0@, r@[6].1@));
        assert(entry_view(r@)[7] == (r@[7].0@, r@[7].1@));
        assert(entry_view(r@)[8] == (r@[8].0@, r@[8].1@));
        assert(entry_view(r@)[9] == (r@[9].0@, r@[9].1@));
        assert(entry_view(r@)[10] == (r@[10].0@, r@[10].1@));
    }
    r
}

/// A `String` holding the literal's characters.
fn lit_string(s: &str) -> (r: String)
    ensures
        r@ == s@,
{
    let cs = crate::text::chars_of(s);
    crate::text::string_of(&cs)
}

/// Whether a course passes a given/match rule's filter; a rule without a
/// filter takes every course.
pub open spec fn course_matches_spec(g: GivenRule, c: Course) -> bool {
    match g.filter {
        Some(f) => clause_matches_spec(f.view_pairs(), course_entry_spec(c)),
        None => true,
    }
}

/// How many of the courses pass the rule's filter.
pub open spec fn matched_count(g: GivenRule, pool: Seq<Course>) -> int
    decreases pool.len(),
{
    if pool.len() == 0 {
        0
    } else {
        matched_count(g, pool.drop_last()) + (if course_matches_spec(g, pool.last()) {
            1int
        } else {
            0int
        })
    }
}

/// The credits of the matching courses, in hundredths, summed: a credit
/// string that does not read as a decimal counts nothing.
pub open spec fn matched_credits2(g: GivenRule, pool: Seq<Course>) -> int
    decreases pool.len(),
{
    if pool.len() == 0 {
        0
    } else {
        matched_credits2(g, pool.drop_last()) + (if course_matches_spec(g, pool.last()) {
            credits2_of(pool.last())
        } else {
            0int
        })
    }
}

/// A course's credits in hundredths: its credit string read as an unsigned
/// decimal, rounded to hundredths, or nothing when it does not read.
pub open spec fn credits2_of(c: Course) -> int {
    match parse_float_spec(c.credits@) {
        Some(d) => if d.neg {
            0int
        } else {
            dec_scaled2(d)
        },
        None => 0int,
    }
}

/// Whether the threshold action holds of a measured amount (both in the
/// same unit): the action's value must be a number — an integer, or for
/// sums a decimal — and the comparison is numeric.
pub open spec fn action_holds(a: ActionView, measured: int, hundredths: bool) -> bool {
    let target: Option<int> = match a.value {
        ValueView::Integer(n) => if hundredths {
            Some(n * 100)
        } else {
            Some(n as int)
        },
        ValueView::Float(d) => if hundredths && !d.neg {
            Some(dec_scaled2(d))
        } else {
            None
        },
        _ => None,
    };
    match target {
        None => false,
        Some(t) => match a.op {
            crate::value::Operator::EqualTo => measured == t,
            crate::value::Operator::NotEqualTo => measured != t,
            crate::value::Operator::GreaterThan => measured > t,
            crate::value::Operator::GreaterThanEqualTo => measured >= t,
            crate::value::Operator::LessThan => measured < t,
            crate::value::Operator::LessThanEqualTo => measured <= t,
        },
    }
}

/// The status a given/match rule settles to over an already-resolved source
/// collection: its filter keeps the matching courses, the action measures
/// them — a count, or a credit sum in hundredths — and the rule passes
/// exactly when the threshold comparison holds.
pub open spec fn evaluate_given_spec(g: GivenRule, pool: Seq<Course>) -> RuleStatus {
    let holds = match g.action.command {
        Command::Count => action_holds(g.action@, matched_count(g, pool), false),
        Command::Sum => action_holds(g.action@, matched_credits2(g, pool), true),
    };
    if holds {
        RuleStatus::Pass
    } else {
        RuleStatus::Fail
    }
}

} // verus!

verus! {

impl GivenRule {
    /// Whether `c` passes this rule's filter (see [`course_matches_spec`]).
    pub fn course_matches(&self, c: &Course) -> (r: bool)
        requires
            (match self.filter {
                Some(f) => f.wf(),
                None => true,
            }),
        ensures
            r == course_matches_spec(*self, *c),
    {
        match &self.filter {
            Some(f) => {
                let entry = course_entry(c);
                f.matches(&entry)
            },
            None => true,
        }
    }

    /// Evaluates this rule over an already-resolved source collection (see
    /// [`evaluate_given_spec`]). The caller resolves the collection — the
    /// whole transcript, a fixed course list, or a saved collection.
    pub fn evaluate(&self, pool: &Vec<Course>) -> (r: RuleStatus)
        requires
            (match self.filter {
                Some(f) => f.wf(),
                None => true,
            }),
            self.action.wf(),
            pool@.len() < 0x100000000000000,
        ensures
            r == evaluate_given_spec(*self, pool@),
    {
        let holds: bool = match self.action.command {
            Command::Count => {
                let mut n: u128 = 0;
                let mut i: usize = 0;
                proof {
                    assert(pool@.take(0int) =~= Seq::<Course>::empty());
                }
                while i < pool.len()
                    invariant
                        i <= pool@.len(),
                        n == matched_count(*self, pool@.take(i as int)),
                        n <= i,
                        (match self.filter {
                            Some(f) => f.wf(),
                            None => true,
                        }),
                    decreases pool@.len() - i,
                {
                    proof {
                        assert(pool@.take(i + 1).drop_last() =~= pool@.take(i as int));
                        assert(pool@.take(i + 1).last() == pool@[i as int]);
                    }
                    if self.course_matches(&pool[i]) {
                        n += 1;
                    }
                    i += 1;
                }
                proof {
                    assert(pool@.take(pool@.len() as int) =~= pool@);
                }
                self.holds_count(n)
            },
            Command::Sum => {
                let mut total: u128 = 0;
                let mut i: usize = 0;
                proof {
                    assert(pool@.take(0int) =~= Seq::<Course>::empty());
                }
                while i < pool.len()
                    invariant
                        i <= pool@.len(),
                        pool@.len() < 0x100000000000000,
                        total == matched_credits2(*self, pool@.take(i as int)),
                        total <= i * 0x800000000000000000,
                        (match self.filter {
                            Some(f) => f.wf(),
                            None => true,
                        }),
                    decreases pool@.len() - i,
                {
                    proof {
                        assert(pool@.take(i + 1).drop_last() =~= pool@.take(i as int));
                        assert(pool@.take(i + 1).last() == pool@[i as int]);
                    }
                    if self.course_matches(&pool[i]) {
                        let credits = course_credits2(&pool[i]);
                        proof {
                            assert(total + credits <= (i + 1) * 0x800000000000000000)
                                by (nonlinear_arith)
                                requires
                                    total <= i * 0x800000000000000000,
                                    credits < 0x800000000000000000,
                                    i >= 0,
                            ;
                            assert((i + 1) * 0x800000000000000000 < u128::MAX) by (nonlinear_arith)
                                requires
                                    i + 1 <= 0x100000000000000,
                            ;
                        }
                        total += credits;
                    } else {
                        proof {
                            assert(total <= (i + 1) * 0x800000000000000000) by (nonlinear_arith)
                                requires
                                    total <= i * 0x800000000000000000,
                                    i >= 0,
                            ;
                        }
                    }
                    i += 1;
                }
                proof {
                    assert(pool@.take(pool@.len() as int) =~= pool@);
                }
                self.holds_sum(total)
            },
        };
        if holds {
            RuleStatus::Pass
        } else {
            RuleStatus::Fail
        }
    }

    /// Whether the threshold holds of a measured count.
    fn holds_count(&self, measured: u128) -> (r: bool)
        ensures
            r == action_holds(self.action@, measured as int, false),
    {
        let target: u128 = match &self.action.value {
            Value::Integer(k) => *k as u128,
            _ => {
                return false;
            },
        };
        self.compare_measured(measured, target)
    }

    /// Whether the threshold holds of a measured credit sum in hundredths.
    fn holds_sum(&self, measured: u128) -> (r: bool)
        requires
            self.action.wf(),
        ensures
            r == action_holds(self.action@, measured as int, true),
    {
        let target: u128 = match &self.action.value {
            Value::Integer(k) => (*k as u128) * 100,
            Value::Float(d) => {
                if d.neg {
                    return false;
                }
                dec2_u128(d)
            },
            _ => {
                return false;
            },
        };
        self.compare_measured(measured, target)
    }

    /// Applies the action's operator to a measured amount and its target.
    fn compare_measured(&self, measured: u128, target: u128) -> (r: bool)
        ensures
            r == (match self.action.op {
                crate::value::Operator::EqualTo => measured == target,
                crate::value::Operator::NotEqualTo => measured != target,
                crate::value::Operator::GreaterThan => measured > target,
                crate::value::Operator::GreaterThanEqualTo => measured >= target,
                crate::value::Operator::LessThan => measured < target,
                crate::value::Operator::LessThanEqualTo => measured <= target,
            }),
    {
        match self.action.op {
            crate::value::Operator::EqualTo => measured == target,
            crate::value::Operator::NotEqualTo => measured != target,
            crate::value::Operator::GreaterThan => measured > target,
            crate::value::Operator::GreaterThanEqualTo => measured >= target,
            crate::value::Operator::LessThan => measured < target,
            crate::value::Operator::LessThanEqualTo => measured <= target,
        }
    }
}

/// A course's credits in hundredths (see [`credits2_of`]); always below
/// `2^65`.
fn course_credits2(c: &Course) -> (r: u128)
    ensures
        r == credits2_of(*c),
        r < 0x800000000000000000,
{
    let cs = crate::text::chars_of(c.credits.as_str());
    match crate::decimal::parse_float(cs.as_slice()) {
        Some(d) => {
            if d.neg {
                0
            } else {
                let r = dec2_u128(&d);
                proof {
                    lemma_dec2_bound(d);
                }
                r
            }
        },
        None => 0,
    }
}

/// The rounded hundredths of a well-formed nonnegative decimal, computed
/// exactly.
fn dec2_u128(d: &Decimal) -> (r: u128)
    requires
        d.well_formed(),
        !d.neg,
    ensures
        r == dec_scaled2(*d),
        r < 0x800000000000000000,
{
    proof {
        lemma_dec2_bound(*d);
    }
    if d.scale <= 2 {
        let p = crate::decimal::pow10_u64(2 - d.scale);
        proof {
            crate::decimal::lemma_pow10_monotone(2 - d.scale, 2);
            assert(pow10_small());
        }
        (d.mantissa as u128) * (p as u128)
    } else {
        let p = crate::decimal::pow10_u64(d.scale - 2);
        proof {
            crate::decimal::lemma_pow10_positive(d.scale - 2);
        }
        let q = d.mantissa / p;
        let rem = d.mantissa % p;
        let carry: u128 = if (rem as u128) * 2 >= (p as u128) {
            1
        } else {
            0
        };
        (q as u128) + carry
    }
}

/// `10^0`, `10^1` and `10^2` written out, for the small-scale branch.
pub open spec fn pow10_small() -> bool {
    crate::decimal::pow10(0) == 1 && crate::decimal::pow10(1) == 10 && crate::decimal::pow10(2)
        == 100
}

/// The rounded hundredths of a well-formed nonnegative decimal stay below
/// `2^65`.
proof fn lemma_dec2_bound(d: Decimal)
    requires
        d.well_formed(),
        !d.neg,
    ensures
        0 <= dec_scaled2(d) < 0x800000000000000000,
{
    assert(crate::decimal::pow10(0) == 1);
    assert(crate::decimal::pow10(1) == 10);
    assert(crate::decimal::pow10(2) == 100);
    if d.scale <= 2 {
        crate::decimal::lemma_pow10_monotone(2 - d.scale, 2);
        assert(d.mantissa * crate::decimal::pow10(2 - d.scale) <= u64::MAX * 100int)
            by (nonlinear_arith)
            requires
                d.mantissa <= u64::MAX,
                1 <= crate::decimal::pow10(2 - d.scale) <= 100,
        ;
        assert(d.mantissa * crate::decimal::pow10(2 - d.scale) >= 0) by (nonlinear_arith)
            requires
                d.mantissa >= 0,
                crate::decimal::pow10(2 - d.scale) >= 1,
        ;
        assert(u64::MAX * 100int < 0x800000000000000000int) by (nonlinear_arith);
    } else {
        let p = crate::decimal::pow10(d.scale - 2);
        crate::decimal::lemma_pow10_positive(d.scale - 2);
        assert(d.mantissa as int / p >= 0) by (nonlinear_arith)
            requires
                d.mantissa >= 0,
                p >= 1,
        ;
        assert(d.mantissa as int / p <= d.mantissa) by (nonlinear_arith)
            requires
                d.mantissa >= 0,
                p >= 1,
        ;
    }
}

} // verus!
