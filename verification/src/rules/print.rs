//! The prose renderer: turns a rule tree into natural-language text,
//! choosing phrasing by node shape — singular unwrapping, two-child
//! either/both phrasing, inline Oxford-joined lists for three homogeneous
//! children, and indented block lists otherwise.

use vstd::prelude::*;

use super::{
    both, either, only_courses_and_requirements_spec, only_courses_spec, only_requirements_spec,
    should_be_inline_spec, Command, CountOfRule, Given, GivenCoursesWhatOptions, GivenRule, Rule,
};
use crate::text::{english_spec, join_sep, oxford_spec, u64_digits};
use crate::value::{value_text, value_wf, Operator, ValueView};
use crate::RenderError;

verus! {

/// Which kind stands in the majority of a mixed three-child list.
#[derive(Debug, PartialEq, Eq, Structural, Clone, Copy)]
pub enum WhichUp {
    Course,
    Requirement,
}

/// The size of a rule tree: every node counts one.
pub open spec fn rule_size(r: Rule) -> nat
    decreases r,
{
    match r {
        Rule::Course(_) => 1,
        Rule::Requirement(_) => 1,
        Rule::Given(_) => 1,
        Rule::Either(e) => 1 + rule_size(*e.either.0) + rule_size(*e.either.1),
        Rule::Both(b) => 1 + rule_size(*b.both.0) + rule_size(*b.both.1),
        Rule::CountOf(c) => 1 + rules_size(c.of@),
    }
}

/// The size of a sequence of rule trees.
pub open spec fn rules_size(l: Seq<Rule>) -> nat
    decreases l,
{
    if l.len() == 0 {
        0
    } else {
        1 + rule_size(l[0]) + rules_size(l.drop_first())
    }
}

pub proof fn lemma_rule_size_pos(r: Rule)
    ensures
        rule_size(r) >= 1,
{
}

pub proof fn lemma_rules_size_element(l: Seq<Rule>, i: int)
    requires
        0 <= i < l.len(),
    ensures
        rule_size(l[i]) < rules_size(l),
    decreases i,
{
    if i == 0 {
    } else {
        assert(l.drop_first()[i - 1] == l[i]);
        lemma_rules_size_element(l.drop_first(), i - 1);
    }
}

pub proof fn lemma_rules_size_pair(l: Seq<Rule>)
    requires
        l.len() >= 2,
    ensures
        rule_size(l[0]) + rule_size(l[1]) < rules_size(l),
{
    assert(l.drop_first()[0] == l[1]);
    lemma_rules_size_element(l.drop_first(), 0);
}

/// Whether a rule is a plain leaf for phrasing purposes.
pub open spec fn is_simple(r: Rule) -> bool {
    r is Course || r is Requirement
}

/// Well-formedness of a rule tree: every value and clause held by a
/// given/match rule is well-formed.
pub open spec fn rule_wf(r: Rule) -> bool
    decreases r,
{
    match r {
        Rule::Course(_) => true,
        Rule::Requirement(_) => true,
        Rule::Given(g) => value_wf(g.action.value@) && (match g.filter {
            Some(c) => c.wf(),
            None => true,
        }),
        Rule::Either(e) => rule_wf(*e.either.0) && rule_wf(*e.either.1),
        Rule::Both(b) => rule_wf(*b.both.0) && rule_wf(*b.both.1),
        Rule::CountOf(c) => rules_wf(c.of@),
    }
}

/// Well-formedness of a sequence of rule trees.
pub open spec fn rules_wf(l: Seq<Rule>) -> bool
    decreases l,
{
    if l.len() == 0 {
        true
    } else {
        rule_wf(l[0]) && rules_wf(l.drop_first())
    }
}

pub proof fn lemma_rules_wf_element(l: Seq<Rule>, i: int)
    requires
        rules_wf(l),
        0 <= i < l.len(),
    ensures
        rule_wf(l[i]),
    decreases i,
{
    if i > 0 {
        assert(l.drop_first()[i - 1] == l[i]);
        lemma_rules_wf_element(l.drop_first(), i - 1);
    }
}

/// The phrase an operator contributes to a threshold action.
pub open spec fn op_phrase(op: Operator) -> Seq<char> {
    match op {
        Operator::EqualTo => "exactly "@,
        Operator::NotEqualTo => "not exactly "@,
        Operator::GreaterThan => "more than "@,
        Operator::GreaterThanEqualTo => "at least "@,
        Operator::LessThan => "fewer than "@,
        Operator::LessThanEqualTo => "at most "@,
    }
}

/// The amount a threshold action asks for: a count is spelled out, any
/// other value prints canonically.
pub open spec fn amount_text(command: Command, v: ValueView) -> Seq<char> {
    match v {
        ValueView::Integer(n) => if command is Count {
            english_spec(n as int)
        } else {
            value_text(v)
        },
        _ => value_text(v),
    }
}

/// Plural-aware noun for counted courses.
pub open spec fn course_word(v: ValueView) -> Seq<char> {
    if v == ValueView::Integer(1u64) {
        "course"@
    } else {
        "courses"@
    }
}

/// Plural-aware noun for counted repeats.
pub open spec fn time_word(v: ValueView) -> Seq<char> {
    if v == ValueView::Integer(1u64) {
        "time"@
    } else {
        "times"@
    }
}

/// The prose of a given/match rule: what to take or earn, how much, and
/// from which collection.
pub open spec fn print_given_spec(g: GivenRule) -> Seq<char> {
    let opp = op_phrase(g.action.op);
    let amount = amount_text(g.action.command, g.action.value@);
    match g.given {
        Given::AllCourses { what } => {
            if what is Credits || g.action.command is Sum {
                "earn "@ + opp + value_text(g.action.value@) + " credits"@
            } else {
                "take "@ + opp + amount + " "@ + course_word(g.action.value@)
            }
        },
        Given::TheseCourses { courses, repeats, what } => {
            "take "@ + oxford_spec(courses.deep_view(), "and"@) + " "@ + opp + amount + " "@
                + time_word(g.action.value@)
        },
        Given::NamedVariable { save, what } => {
            if what is Credits || g.action.command is Sum {
                "earn "@ + opp + value_text(g.action.value@) + " credits from among “"@ + save@
                    + "”"@
            } else {
                "take "@ + opp + amount + " "@ + course_word(g.action.value@)
                    + " from among “"@ + save@ + "”"@
            }
        },
    }
}

} // verus!

verus! {

/// The inline phrase of a rule inside a list: the bare course label, the
/// quoted requirement name, or the rule's full sentence.
pub open spec fn print_inner_spec(r: Rule) -> Result<Seq<char>, RenderError>
    decreases rule_size(r), 1nat,
{
    match r {
        Rule::Course(c) => Ok(c.course@),
        Rule::Requirement(q) => Ok("“"@ + q.requirement@ + "”"@),
        _ => print_rule_spec(r),
    }
}

/// The sentence a rule renders to.
pub open spec fn print_rule_spec(r: Rule) -> Result<Seq<char>, RenderError>
    decreases rule_size(r), 0nat,
    via print_rule_spec_decreases
{
    match r {
        Rule::Course(c) => Ok("take "@ + c.course@),
        Rule::Requirement(q) => Ok("complete the “"@ + q.requirement@ + "” requirement"@),
        Rule::Given(g) => Ok(print_given_spec(g)),
        Rule::Either(e) => print_either_spec(*e.either.0, *e.either.1),
        Rule::Both(b) => print_both_spec(*b.both.0, *b.both.1),
        Rule::CountOf(c) => print_count_spec(c.count, c.of@),
    }
}

#[via_fn]
proof fn print_rule_spec_decreases(r: Rule) {
    match r {
        Rule::Either(e) => {
            lemma_rule_size_pos(*e.either.0);
            lemma_rule_size_pos(*e.either.1);
        },
        Rule::Both(b) => {
            lemma_rule_size_pos(*b.both.0);
            lemma_rule_size_pos(*b.both.1);
        },
        _ => {},
    }
}

/// The sentence a two-child either renders to: dedicated phrasing for the
/// four course/requirement pairings, a flowing `either X or Y` when one
/// side is compound, and a two-item block when both are.
pub open spec fn print_either_spec(a: Rule, b: Rule) -> Result<Seq<char>, RenderError>
    decreases rule_size(a) + rule_size(b), 4nat,
    via print_either_spec_decreases
{
    if a is Course && b is Course {
        Ok("take either "@ + a->Course_0.course@ + " or "@ + b->Course_0.course@)
    } else if a is Requirement && b is Requirement {
        Ok("complete either the “"@ + a->Requirement_0.requirement@ + "” or “"@
            + b->Requirement_0.requirement@ + "” requirement"@)
    } else if a is Course && b is Requirement {
        Ok("take "@ + a->Course_0.course@ + " or complete the “"@
            + b->Requirement_0.requirement@ + "” requirement"@)
    } else if a is Requirement && b is Course {
        Ok("complete the “"@ + a->Requirement_0.requirement@ + "” requirement or take "@
            + b->Course_0.course@)
    } else {
        match (print_rule_spec(a), print_rule_spec(b)) {
            (Ok(x), Ok(y)) => {
                if is_simple(a) || is_simple(b) {
                    Ok("either "@ + x + " or "@ + y)
                } else {
                    Ok("either:\n\n- "@ + x + "\n\n- or "@ + y)
                }
            },
            (Err(e), _) => Err(e),
            (_, Err(e)) => Err(e),
        }
    }
}

#[via_fn]
proof fn print_either_spec_decreases(a: Rule, b: Rule) {
    lemma_rule_size_pos(a);
    lemma_rule_size_pos(b);
}

/// The sentence a two-child both renders to, mirroring the either phrasing
/// with conjunction.
pub open spec fn print_both_spec(a: Rule, b: Rule) -> Result<Seq<char>, RenderError>
    decreases rule_size(a) + rule_size(b), 4nat,
    via print_both_spec_decreases
{
    if a is Course && b is Course {
        Ok("take both "@ + a->Course_0.course@ + " and "@ + b->Course_0.course@)
    } else if a is Requirement && b is Requirement {
        Ok("complete both the “"@ + a->Requirement_0.requirement@ + "” and “"@
            + b->Requirement_0.requirement@ + "” requirements"@)
    } else if a is Course && b is Requirement {
        Ok("take "@ + a->Course_0.course@ + " and complete the “"@
            + b->Requirement_0.requirement@ + "” requirement"@)
    } else if a is Requirement && b is Course {
        Ok("complete the “"@ + a->Requirement_0.requirement@ + "” requirement and take "@
            + b->Course_0.course@)
    } else {
        match (print_rule_spec(a), print_rule_spec(b)) {
            (Ok(x), Ok(y)) => {
                if is_simple(a) || is_simple(b) {
                    Ok("both "@ + x + " and "@ + y)
                } else {
                    Ok("both:\n\n- "@ + x + "\n\n- and "@ + y)
                }
            },
            (Err(e), _) => Err(e),
            (_, Err(e)) => Err(e),
        }
    }
}

#[via_fn]
proof fn print_both_spec_decreases(a: Rule, b: Rule) {
    lemma_rule_size_pos(a);
    lemma_rule_size_pos(b);
}

/// The inline phrases of the rules, in order, dropping any that fail.
pub open spec fn collect_inner_spec(l: Seq<Rule>) -> Seq<Seq<char>>
    decreases rules_size(l), 2nat,
    via collect_inner_spec_decreases
{
    if l.len() == 0 {
        Seq::empty()
    } else {
        match print_inner_spec(l[0]) {
            Ok(t) => seq![t] + collect_inner_spec(l.drop_first()),
            Err(_) => collect_inner_spec(l.drop_first()),
        }
    }
}

#[via_fn]
proof fn collect_inner_spec_decreases(l: Seq<Rule>) {
    if l.len() > 0 {
        lemma_rules_size_element(l, 0);
        lemma_rule_size_pos(l[0]);
    }
}

/// The full sentences of the rules, in order, dropping any that fail.
pub open spec fn collect_rule_spec(l: Seq<Rule>) -> Seq<Seq<char>>
    decreases rules_size(l), 2nat,
    via collect_rule_spec_decreases
{
    if l.len() == 0 {
        Seq::empty()
    } else {
        match print_rule_spec(l[0]) {
            Ok(t) => seq![t] + collect_rule_spec(l.drop_first()),
            Err(_) => collect_rule_spec(l.drop_first()),
        }
    }
}

#[via_fn]
proof fn collect_rule_spec_decreases(l: Seq<Rule>) {
    if l.len() > 0 {
        lemma_rules_size_element(l, 0);
        lemma_rule_size_pos(l[0]);
    }
}

/// A block list of elided one-line items.
pub open spec fn block_elided_spec(l: Seq<Rule>) -> Seq<char>
    decreases rules_size(l), 3nat,
{
    join_sep(collect_inner_spec(l).map_values(|t: Seq<char>| "- "@ + t), "\n"@)
}

/// A block list of full recursive items.
pub open spec fn block_verbose_spec(l: Seq<Rule>) -> Seq<char>
    decreases rules_size(l), 3nat,
{
    join_sep(collect_rule_spec(l).map_values(|t: Seq<char>| "- "@ + t), "\n"@)
}

/// How a mixed three-child course/requirement list is reordered for prose:
/// the two same-kind items stay adjacent in their input order, and the odd
/// one out takes the position its kind calls for. Any other shape is an
/// upstream contract violation.
pub open spec fn three_up_spec(l: Seq<Rule>) -> Result<(WhichUp, int, int, int), RenderError> {
    if l.len() == 3 && l[0] is Course && l[1] is Course && l[2] is Requirement {
        Ok((WhichUp::Course, 0int, 1int, 2int))
    } else if l.len() == 3 && l[0] is Course && l[1] is Requirement && l[2] is Course {
        Ok((WhichUp::Course, 0int, 2int, 1int))
    } else if l.len() == 3 && l[0] is Requirement && l[1] is Course && l[2] is Course {
        Ok((WhichUp::Course, 1int, 2int, 0int))
    } else if l.len() == 3 && l[0] is Course && l[1] is Requirement && l[2] is Requirement {
        Ok((WhichUp::Requirement, 0int, 1int, 2int))
    } else if l.len() == 3 && l[0] is Requirement && l[1] is Course && l[2] is Requirement {
        Ok((WhichUp::Requirement, 1int, 0int, 2int))
    } else if l.len() == 3 && l[0] is Requirement && l[1] is Requirement && l[2] is Course {
        Ok((WhichUp::Requirement, 2int, 0int, 1int))
    } else {
        Err(RenderError::UnreachableShape)
    }
}

/// The courses of the list, in order.
pub open spec fn courses_of(l: Seq<Rule>) -> Seq<Rule>
    decreases l,
{
    if l.len() == 0 {
        Seq::empty()
    } else if l.last() is Course {
        courses_of(l.drop_last()).push(l.last())
    } else {
        courses_of(l.drop_last())
    }
}

/// The non-course rules of the list, in order.
pub open spec fn non_courses_of(l: Seq<Rule>) -> Seq<Rule>
    decreases l,
{
    if l.len() == 0 {
        Seq::empty()
    } else if l.last() is Course {
        non_courses_of(l.drop_last())
    } else {
        non_courses_of(l.drop_last()).push(l.last())
    }
}

} // verus!

verus! {

/// The sentence an at-least-`count`-of-these rule renders to: a lone child
/// is unwrapped; two children delegate to the either/both phrasing; three
/// homogeneous children render inline with an Oxford join (a mixed
/// course/requirement triple is reordered first); anything else renders as
/// a heading over a block list, elided for homogeneous children and fully
/// recursive for mixed ones.
pub open spec fn print_count_spec(count: u64, l: Seq<Rule>) -> Result<Seq<char>, RenderError>
    decreases rules_size(l), 5nat,
    via print_count_spec_decreases
{
    if l.len() == 1 {
        match print_inner_spec(l[0]) {
            Err(e) => Err(e),
            Ok(req) => {
                if only_requirements_spec(l) {
                    Ok("complete the "@ + req + " requirement"@)
                } else if only_courses_spec(l) {
                    Ok("take "@ + req)
                } else {
                    Ok(req)
                }
            },
        }
    } else if l.len() == 2 && count == 1 {
        print_either_spec(l[0], l[1])
    } else if l.len() == 2 && count == 2 {
        print_both_spec(l[0], l[1])
    } else if count == 1 {
        if should_be_inline_spec(l) {
            if only_requirements_spec(l) {
                Ok("complete one requirement from among "@ + oxford_spec(
                    collect_inner_spec(l),
                    "or"@,
                ))
            } else if only_courses_spec(l) {
                Ok("take one course from among "@ + oxford_spec(collect_inner_spec(l), "or"@))
            } else if only_courses_and_requirements_spec(l) {
                match three_up_spec(l) {
                    Err(e) => Err(e),
                    Ok((which, ia, ib, ic)) => {
                        match (print_inner_spec(l[ia]), print_inner_spec(l[ib]), print_inner_spec(
                            l[ic],
                        )) {
                            (Ok(a), Ok(b), Ok(c)) => {
                                if which is Course {
                                    Ok("take "@ + a + " or "@ + b + ", or complete the "@ + c
                                        + " requirement"@)
                                } else {
                                    Ok("take "@ + a + ", or complete either the "@ + b + " or "@
                                        + c + " requirements"@)
                                }
                            },
                            (Err(e), _, _) => Err(e),
                            (_, Err(e), _) => Err(e),
                            (_, _, Err(e)) => Err(e),
                        }
                    },
                }
            } else {
                Ok("do one of the following:\n\n"@ + block_verbose_spec(l))
            }
        } else {
            if only_requirements_spec(l) {
                Ok("complete one of the following requirements:\n\n"@ + block_elided_spec(l))
            } else if only_courses_spec(l) {
                Ok("take one of the following courses:\n\n"@ + block_elided_spec(l))
            } else {
                Ok("do one of the following:\n\n"@ + block_verbose_spec(l))
            }
        }
    } else if count == l.len() {
        if should_be_inline_spec(l) {
            if only_requirements_spec(l) {
                Ok("complete "@ + oxford_spec(collect_inner_spec(l), "and"@))
            } else if only_courses_spec(l) {
                Ok("take "@ + oxford_spec(collect_inner_spec(l), "and"@))
            } else if only_courses_and_requirements_spec(l) {
                match three_up_spec(l) {
                    Err(e) => Err(e),
                    Ok((which, ia, ib, ic)) => {
                        match (print_inner_spec(l[ia]), print_inner_spec(l[ib]), print_inner_spec(
                            l[ic],
                        )) {
                            (Ok(a), Ok(b), Ok(c)) => {
                                if which is Course {
                                    Ok("take "@ + a + " and "@ + b + ", and complete the "@ + c
                                        + " requirement"@)
                                } else {
                                    Ok("take "@ + a + ", and complete both the "@ + b + " and "@
                                        + c + " requirements"@)
                                }
                            },
                            (Err(e), _, _) => Err(e),
                            (_, Err(e), _) => Err(e),
                            (_, _, Err(e)) => Err(e),
                        }
                    },
                }
            } else {
                Ok("do all of the following:\n\n"@ + block_verbose_spec(l))
            }
        } else {
            if only_requirements_spec(l) {
                Ok("complete all of the following requirements:\n\n"@ + block_elided_spec(l))
            } else if only_courses_spec(l) {
                Ok("take all of the following courses:\n\n"@ + block_elided_spec(l))
            } else {
                Ok("do all of the following:\n\n"@ + block_verbose_spec(l))
            }
        }
    } else {
        let n = english_spec(count as int);
        if should_be_inline_spec(l) {
            if only_requirements_spec(l) {
                Ok("complete "@ + n + " requirements from among "@ + oxford_spec(
                    collect_inner_spec(l),
                    "or"@,
                ))
            } else if only_courses_spec(l) {
                Ok("take "@ + n + " courses from among "@ + oxford_spec(
                    collect_inner_spec(l),
                    "or"@,
                ))
            } else if only_courses_and_requirements_spec(l) {
                Ok("complete or take "@ + n + " requirements or courses from among "@
                    + oxford_spec(
                    collect_inner_spec(courses_of(l) + non_courses_of(l)),
                    "or"@,
                ))
            } else {
                Ok("do "@ + n + " from among the following:\n\n"@ + block_verbose_spec(l))
            }
        } else {
            if only_requirements_spec(l) {
                Ok("complete "@ + n + " from among the following requirements:\n\n"@
                    + block_elided_spec(l))
            } else if only_courses_spec(l) {
                Ok("take "@ + n + " of the following courses:\n\n"@ + block_elided_spec(l))
            } else {
                Ok("do "@ + n + " from among the following:\n\n"@ + block_verbose_spec(l))
            }
        }
    }
}

#[via_fn]
proof fn print_count_spec_decreases(count: u64, l: Seq<Rule>) {
    if l.len() >= 1 {
        lemma_rules_size_element(l, 0);
        lemma_rule_size_pos(l[0]);
    }
    if l.len() >= 2 {
        lemma_rules_size_pair(l);
    }
    if l.len() == 3 {
        match three_up_spec(l) {
            Ok((which, ia, ib, ic)) => {
                lemma_rules_size_element(l, ia);
                lemma_rules_size_element(l, ib);
                lemma_rules_size_element(l, ic);
            },
            Err(_) => {},
        }
    }
    lemma_collect_size(l);
}

/// The size of the reordered mixed list never grows: both partitions hold
/// elements of the original.
proof fn lemma_collect_size(l: Seq<Rule>)
    ensures
        rules_size(courses_of(l) + non_courses_of(l)) <= rules_size(l),
    decreases l.len(),
{
    assert(rules_size(Seq::<Rule>::empty()) == 0);
    if l.len() == 0 {
        assert(courses_of(l) + non_courses_of(l) =~= Seq::<Rule>::empty());
    } else {
        assert(l =~= l.drop_last().push(l.last()));
        lemma_rules_size_snoc(l.drop_last(), l.last());
        assert(rules_size(l) == rules_size(l.drop_last()) + rule_size(l.last()) + 1);
        lemma_collect_size(l.drop_last());
        if l.last() is Course {
            assert(non_courses_of(l) == non_courses_of(l.drop_last()));
            assert(courses_of(l) == courses_of(l.drop_last()).push(l.last()));
            lemma_rules_size_insert_mid(
                courses_of(l.drop_last()),
                non_courses_of(l.drop_last()),
                l.last(),
            );
            lemma_rules_size_snoc(l.drop_last(), l.last());
        } else {
            assert(courses_of(l) == courses_of(l.drop_last()));
            assert(non_courses_of(l) == non_courses_of(l.drop_last()).push(l.last()));
            assert(courses_of(l) + non_courses_of(l) =~= (courses_of(l.drop_last())
                + non_courses_of(l.drop_last())).push(l.last()));
            lemma_rules_size_snoc(courses_of(l.drop_last()) + non_courses_of(l.drop_last()), l.last());
            lemma_rules_size_snoc(l.drop_last(), l.last());
        }
    }
}

/// Appending one rule adds its size and one.
proof fn lemma_rules_size_snoc(l: Seq<Rule>, r: Rule)
    ensures
        rules_size(l.push(r)) == rules_size(l) + rule_size(r) + 1,
    decreases l.len(),
{
    assert(rules_size(Seq::<Rule>::empty()) == 0);
    if l.len() == 0 {
        assert(l.push(r)[0] == r);
        assert(l.push(r).drop_first() =~= Seq::<Rule>::empty());
        assert(rules_size(l.push(r)) == 1 + rule_size(r) + rules_size(l.push(r).drop_first()));
    } else {
        assert(l.push(r)[0] == l[0]);
        assert(l.push(r).drop_first() =~= l.drop_first().push(r));
        lemma_rules_size_snoc(l.drop_first(), r);
        assert(rules_size(l.push(r)) == 1 + rule_size(l[0]) + rules_size(l.drop_first().push(r)));
        assert(rules_size(l) == 1 + rule_size(l[0]) + rules_size(l.drop_first()));
    }
}

/// Pushing onto the left part of a concatenation counts the same as
/// appending in the middle.
proof fn lemma_rules_size_insert_mid(x: Seq<Rule>, y: Seq<Rule>, r: Rule)
    ensures
        rules_size(x.push(r) + y) == rules_size(x + y) + rule_size(r) + 1,
    decreases x.len(),
{
    if x.len() == 0 {
        assert((x.push(r) + y)[0] == r);
        assert((x.push(r) + y).drop_first() =~= y);
        assert(x + y =~= y);
    } else {
        assert((x.push(r) + y)[0] == x[0]);
        assert((x + y)[0] == x[0]);
        assert((x.push(r) + y).drop_first() =~= x.drop_first().push(r) + y);
        assert((x + y).drop_first() =~= x.drop_first() + y);
        lemma_rules_size_insert_mid(x.drop_first(), y, r);
    }
}

} // verus!

verus! {

/// The view of a rendered result.
pub open spec fn chars_res_view(r: Result<Vec<char>, RenderError>) -> Result<
    Seq<char>,
    RenderError,
> {
    match r {
        Ok(v) => Ok(v@),
        Err(e) => Err(e),
    }
}

/// Executable check that every child is a course.
fn only_courses(l: &[Rule]) -> (r: bool)
    ensures
        r == only_courses_spec(l@),
{
    let mut i: usize = 0;
    while i < l.len()
        invariant
            i <= l@.len(),
            forall|k: int| 0 <= k < i ==> (#[trigger] l@[k]) is Course,
        decreases l@.len() - i,
    {
        match vstd::slice::slice_index_get(l, i) {
            Rule::Course(_) => {},
            _ => {
                return false;
            },
        }
        i += 1;
    }
    true
}

/// Executable check that every child is a requirement reference.
fn only_requirements(l: &[Rule]) -> (r: bool)
    ensures
        r == only_requirements_spec(l@),
{
    let mut i: usize = 0;
    while i < l.len()
        invariant
            i <= l@.len(),
            forall|k: int| 0 <= k < i ==> (#[trigger] l@[k]) is Requirement,
        decreases l@.len() - i,
    {
        match vstd::slice::slice_index_get(l, i) {
            Rule::Requirement(_) => {},
            _ => {
                return false;
            },
        }
        i += 1;
    }
    true
}

/// Executable check that every child is a course or a requirement.
fn only_courses_and_requirements(l: &[Rule]) -> (r: bool)
    ensures
        r == only_courses_and_requirements_spec(l@),
{
    let mut i: usize = 0;
    while i < l.len()
        invariant
            i <= l@.len(),
            forall|k: int| 0 <= k < i ==> ((#[trigger] l@[k]) is Course || l@[k] is Requirement),
        decreases l@.len() - i,
    {
        match vstd::slice::slice_index_get(l, i) {
            Rule::Course(_) => {},
            Rule::Requirement(_) => {},
            _ => {
                return false;
            },
        }
        i += 1;
    }
    true
}

/// Executable check for inline layout.
fn should_be_inline(l: &[Rule]) -> (r: bool)
    ensures
        r == should_be_inline_spec(l@),
{
    if !(2 < l.len() && l.len() < 4) {
        return false;
    }
    let mut i: usize = 0;
    while i < l.len()
        invariant
            i <= l@.len(),
            forall|k: int| 0 <= k < i ==> !((#[trigger] l@[k]) is CountOf),
        decreases l@.len() - i,
    {
        match vstd::slice::slice_index_get(l, i) {
            Rule::CountOf(_) => {
                return false;
            },
            _ => {},
        }
        i += 1;
    }
    true
}

/// Reorders a mixed three-child course/requirement list for prose (see
/// [`three_up_spec`]): the two majority-kind items first, in input order,
/// then the odd one out.
pub fn collect_and_sort_three_up<'a>(v: &'a [Rule]) -> (r: Result<
    (WhichUp, &'a Rule, &'a Rule, &'a Rule),
    RenderError,
>)
    ensures
        (match r {
            Ok((w, a, b, c)) => {
                &&& three_up_spec(v@) is Ok
                &&& {
                    let (sw, ia, ib, ic) = three_up_spec(v@)->Ok_0;
                    w == sw && *a == v@[ia] && *b == v@[ib] && *c == v@[ic]
                }
            },
            Err(e) => three_up_spec(v@) == Err::<(WhichUp, int, int, int), RenderError>(e),
        }),
{
    if v.len() != 3 {
        return Err(RenderError::UnreachableShape);
    }
    let r0 = vstd::slice::slice_index_get(v, 0);
    let r1 = vstd::slice::slice_index_get(v, 1);
    let r2 = vstd::slice::slice_index_get(v, 2);
    let c0 = matches!(r0, Rule::Course(_));
    let c1 = matches!(r1, Rule::Course(_));
    let c2 = matches!(r2, Rule::Course(_));
    let q0 = matches!(r0, Rule::Requirement(_));
    let q1 = matches!(r1, Rule::Requirement(_));
    let q2 = matches!(r2, Rule::Requirement(_));
    if c0 && c1 && q2 {
        Ok((WhichUp::Course, r0, r1, r2))
    } else if c0 && q1 && c2 {
        Ok((WhichUp::Course, r0, r2, r1))
    } else if q0 && c1 && c2 {
        Ok((WhichUp::Course, r1, r2, r0))
    } else if c0 && q1 && q2 {
        Ok((WhichUp::Requirement, r0, r1, r2))
    } else if q0 && c1 && q2 {
        Ok((WhichUp::Requirement, r1, r0, r2))
    } else if q0 && q1 && c2 {
        Ok((WhichUp::Requirement, r2, r0, r1))
    } else {
        Err(RenderError::UnreachableShape)
    }
}

} // verus!

verus! {

/// Appends the characters of a literal to the buffer.
fn app_lit(out: &mut Vec<char>, s: &str)
    ensures
        final(out)@ == old(out)@ + s@,
{
    let mut c = crate::text::chars_of(s);
    out.append(&mut c);
}

/// The character lists of the strings, in order.
pub(crate) fn strings_to_char_lists(v: &Vec<String>) -> (r: Vec<Vec<char>>)
    ensures
        r.deep_view() == v.deep_view(),
{
    let mut r: Vec<Vec<char>> = Vec::new();
    let mut i: usize = 0;
    proof {
        assert(r.deep_view() =~= v.deep_view().take(0int));
    }
    while i < v.len()
        invariant
            i <= v@.len(),
            v.deep_view().len() == v@.len(),
            r.deep_view() == v.deep_view().take(i as int),
        decreases v@.len() - i,
    {
        let cs = crate::text::chars_of(v[i].as_str());
        let ghost pre = r.deep_view();
        let ghost pre_shallow = r@;
        proof {
            assert(r.deep_view().len() == pre_shallow.len());
        }
        r.push(cs);
        proof {
            assert forall|j: int| 0 <= j < r@.len() implies r.deep_view()[j] == v.deep_view().take(
                i + 1,
            )[j] by {
                if j < pre_shallow.len() {
                    assert(r@[j] == pre_shallow[j]);
                    assert(pre_shallow[j].deep_view() == pre[j]);
                } else {
                    assert(r@[j]@ =~= v@[i as int]@);
                }
            }
            assert(r.deep_view() =~= v.deep_view().take(i + 1));
        }
        i += 1;
    }
    proof {
        assert(v.deep_view().take(v@.len() as int) =~= v.deep_view());
    }
    r
}

/// Appends the phrase of a threshold operator.
fn app_op_phrase(out: &mut Vec<char>, op: Operator)
    ensures
        final(out)@ == old(out)@ + op_phrase(op),
{
    match op {
        Operator::EqualTo => app_lit(out, "exactly "),
        Operator::NotEqualTo => app_lit(out, "not exactly "),
        Operator::GreaterThan => app_lit(out, "more than "),
        Operator::GreaterThanEqualTo => app_lit(out, "at least "),
        Operator::LessThan => app_lit(out, "fewer than "),
        Operator::LessThanEqualTo => app_lit(out, "at most "),
    }
}

/// Appends the amount a threshold action asks for.
fn app_amount(out: &mut Vec<char>, command: Command, v: &crate::value::Value)
    requires
        value_wf(v@),
    ensures
        final(out)@ == old(out)@ + amount_text(command, v@),
{
    match (command, v) {
        (Command::Count, crate::value::Value::Integer(n)) => {
            let mut e = crate::text::english(*n);
            out.append(&mut e);
        },
        _ => {
            v.push_text(out);
        },
    }
}

/// Renders a given/match rule (see [`print_given_spec`]).
fn print_given_chars(g: &GivenRule) -> (r: Vec<char>)
    requires
        value_wf(g.action.value@),
    ensures
        r@ == print_given_spec(*g),
{
    let mut out: Vec<char> = Vec::new();
    let one = matches!(&g.action.value, crate::value::Value::Integer(1u64));
    match &g.given {
        Given::AllCourses { what } => {
            let credits = matches!(what, GivenCoursesWhatOptions::Credits) || matches!(
                g.action.command,
                Command::Sum,
            );
            if credits {
                app_lit(&mut out, "earn ");
                app_op_phrase(&mut out, g.action.op);
                g.action.value.push_text(&mut out);
                app_lit(&mut out, " credits");
            } else {
                app_lit(&mut out, "take ");
                app_op_phrase(&mut out, g.action.op);
                app_amount(&mut out, g.action.command, &g.action.value);
                app_lit(&mut out, " ");
                if one {
                    app_lit(&mut out, "course");
                } else {
                    app_lit(&mut out, "courses");
                }
            }
        },
        Given::TheseCourses { courses, .. } => {
            app_lit(&mut out, "take ");
            let lists = strings_to_char_lists(courses);
            let conj = ['a', 'n', 'd'];
            let mut joined = crate::text::oxford(&lists, &conj);
            proof {
                reveal_strlit("and");
                assert(conj@ =~= "and"@);
            }
            out.append(&mut joined);
            app_lit(&mut out, " ");
            app_op_phrase(&mut out, g.action.op);
            app_amount(&mut out, g.action.command, &g.action.value);
            app_lit(&mut out, " ");
            if one {
                app_lit(&mut out, "time");
            } else {
                app_lit(&mut out, "times");
            }
        },
        Given::NamedVariable { save, what } => {
            let credits = matches!(what, GivenCoursesWhatOptions::Credits) || matches!(
                g.action.command,
                Command::Sum,
            );
            if credits {
                app_lit(&mut out, "earn ");
                app_op_phrase(&mut out, g.action.op);
                g.action.value.push_text(&mut out);
                app_lit(&mut out, " credits from among “");
                let mut sv = crate::text::chars_of(save.as_str());
                out.append(&mut sv);
                app_lit(&mut out, "”");
            } else {
                app_lit(&mut out, "take ");
                app_op_phrase(&mut out, g.action.op);
                app_amount(&mut out, g.action.command, &g.action.value);
                app_lit(&mut out, " ");
                if one {
                    app_lit(&mut out, "course");
                } else {
                    app_lit(&mut out, "courses");
                }
                app_lit(&mut out, " from among “");
                let mut sv = crate::text::chars_of(save.as_str());
                out.append(&mut sv);
                app_lit(&mut out, "”");
            }
        },
    }
    proof {
        assert(out@ =~= print_given_spec(*g));
    }
    out
}

} // verus!

verus! {

/// Renders a rule's inline phrase (see [`print_inner_spec`]).
fn print_inner_chars(r: &Rule) -> (res: Result<Vec<char>, RenderError>)
    requires
        rule_wf(*r),
    ensures
        chars_res_view(res) == print_inner_spec(*r),
    decreases rule_size(*r), 1nat,
{
    match r {
        Rule::Course(c) => {
            let out = crate::text::chars_of(c.course.as_str());
            Ok(out)
        },
        Rule::Requirement(q) => {
            let mut out: Vec<char> = Vec::new();
            app_lit(&mut out, "“");
            let mut name = crate::text::chars_of(q.requirement.as_str());
            out.append(&mut name);
            app_lit(&mut out, "”");
            proof {
                assert(out@ =~= "“"@ + q.requirement@ + "”"@);
            }
            Ok(out)
        },
        _ => print_rule_chars(r),
    }
}

/// Renders a rule's full sentence (see [`print_rule_spec`]).
fn print_rule_chars(r: &Rule) -> (res: Result<Vec<char>, RenderError>)
    requires
        rule_wf(*r),
    ensures
        chars_res_view(res) == print_rule_spec(*r),
    decreases rule_size(*r), 0nat,
{
    match r {
        Rule::Course(c) => {
            let mut out: Vec<char> = Vec::new();
            app_lit(&mut out, "take ");
            let mut label = crate::text::chars_of(c.course.as_str());
            out.append(&mut label);
            proof {
                assert(out@ =~= "take "@ + c.course@);
            }
            Ok(out)
        },
        Rule::Requirement(q) => {
            let mut out: Vec<char> = Vec::new();
            app_lit(&mut out, "complete the “");
            let mut name = crate::text::chars_of(q.requirement.as_str());
            out.append(&mut name);
            app_lit(&mut out, "” requirement");
            proof {
                assert(out@ =~= "complete the “"@ + q.requirement@ + "” requirement"@);
            }
            Ok(out)
        },
        Rule::Given(g) => Ok(print_given_chars(g)),
        Rule::Either(e) => {
            proof {
                lemma_rule_size_pos(*e.either.0);
                lemma_rule_size_pos(*e.either.1);
            }
            print_either_chars(&e.either.0, &e.either.1)
        },
        Rule::Both(b) => {
            proof {
                lemma_rule_size_pos(*b.both.0);
                lemma_rule_size_pos(*b.both.1);
            }
            print_both_chars(&b.both.0, &b.both.1)
        },
        Rule::CountOf(c) => print_count_chars(c.count, c.of.as_slice()),
    }
}

/// Renders a two-child either (see [`print_either_spec`]).
fn print_either_chars(a: &Rule, b: &Rule) -> (res: Result<Vec<char>, RenderError>)
    requires
        rule_wf(*a),
        rule_wf(*b),
    ensures
        chars_res_view(res) == print_either_spec(*a, *b),
    decreases rule_size(*a) + rule_size(*b), 4nat,
{
    proof {
        lemma_rule_size_pos(*a);
        lemma_rule_size_pos(*b);
    }
    match (a, b) {
        (Rule::Course(ca), Rule::Course(cb)) => {
            let mut out: Vec<char> = Vec::new();
            app_lit(&mut out, "take either ");
            let mut la = crate::text::chars_of(ca.course.as_str());
            out.append(&mut la);
            app_lit(&mut out, " or ");
            let mut lb = crate::text::chars_of(cb.course.as_str());
            out.append(&mut lb);
            proof {
                assert(out@ =~= "take either "@ + ca.course@ + " or "@ + cb.course@);
            }
            Ok(out)
        },
        (Rule::Requirement(ra), Rule::Requirement(rb)) => {
            let mut out: Vec<char> = Vec::new();
            app_lit(&mut out, "complete either the “");
            let mut la = crate::text::chars_of(ra.requirement.as_str());
            out.append(&mut la);
            app_lit(&mut out, "” or “");
            let mut lb = crate::text::chars_of(rb.requirement.as_str());
            out.append(&mut lb);
            app_lit(&mut out, "” requirement");
            proof {
                assert(out@ =~= "complete either the “"@ + ra.requirement@ + "” or “"@
                    + rb.requirement@ + "” requirement"@);
            }
            Ok(out)
        },
        (Rule::Course(ca), Rule::Requirement(rb)) => {
            let mut out: Vec<char> = Vec::new();
            app_lit(&mut out, "take ");
            let mut la = crate::text::chars_of(ca.course.as_str());
            out.append(&mut la);
            app_lit(&mut out, " or complete the “");
            let mut lb = crate::text::chars_of(rb.requirement.as_str());
            out.append(&mut lb);
            app_lit(&mut out, "” requirement");
            proof {
                assert(out@ =~= "take "@ + ca.course@ + " or complete the “"@ + rb.requirement@
                    + "” requirement"@);
            }
            Ok(out)
        },
        (Rule::Requirement(ra), Rule::Course(cb)) => {
            let mut out: Vec<char> = Vec::new();
            app_lit(&mut out, "complete the “");
            let mut la = crate::text::chars_of(ra.requirement.as_str());
            out.append(&mut la);
            app_lit(&mut out, "” requirement or take ");
            let mut lb = crate::text::chars_of(cb.course.as_str());
            out.append(&mut lb);
            proof {
                assert(out@ =~= "complete the “"@ + ra.requirement@ + "” requirement or take "@
                    + cb.course@);
            }
            Ok(out)
        },
        _ => {
            let xr = print_rule_chars(a)?;
            let yr = print_rule_chars(b)?;
            let simple = matches!(a, Rule::Course(_) | Rule::Requirement(_)) || matches!(
                b,
                Rule::Course(_) | Rule::Requirement(_),
            );
            let mut out: Vec<char> = Vec::new();
            let mut x = xr;
            let mut y = yr;
            if simple {
                app_lit(&mut out, "either ");
                out.append(&mut x);
                app_lit(&mut out, " or ");
                out.append(&mut y);
                proof {
                    assert(out@ =~= "either "@ + print_rule_spec(*a)->Ok_0 + " or "@
                        + print_rule_spec(*b)->Ok_0);
                }
            } else {
                app_lit(&mut out, "either:\n\n- ");
                out.append(&mut x);
                app_lit(&mut out, "\n\n- or ");
                out.append(&mut y);
                proof {
                    assert(out@ =~= "either:\n\n- "@ + print_rule_spec(*a)->Ok_0 + "\n\n- or "@
                        + print_rule_spec(*b)->Ok_0);
                }
            }
            Ok(out)
        },
    }
}

/// Renders a two-child both (see [`print_both_spec`]).
fn print_both_chars(a: &Rule, b: &Rule) -> (res: Result<Vec<char>, RenderError>)
    requires
        rule_wf(*a),
        rule_wf(*b),
    ensures
        chars_res_view(res) == print_both_spec(*a, *b),
    decreases rule_size(*a) + rule_size(*b), 4nat,
{
    proof {
        lemma_rule_size_pos(*a);
        lemma_rule_size_pos(*b);
    }
    match (a, b) {
        (Rule::Course(ca), Rule::Course(cb)) => {
            let mut out: Vec<char> = Vec::new();
            app_lit(&mut out, "take both ");
            let mut la = crate::text::chars_of(ca.course.as_str());
            out.append(&mut la);
            app_lit(&mut out, " and ");
            let mut lb = crate::text::chars_of(cb.course.as_str());
            out.append(&mut lb);
            proof {
                assert(out@ =~= "take both "@ + ca.course@ + " and "@ + cb.course@);
            }
            Ok(out)
        },
        (Rule::Requirement(ra), Rule::Requirement(rb)) => {
            let mut out: Vec<char> = Vec::new();
            app_lit(&mut out, "complete both the “");
            let mut la = crate::text::chars_of(ra.requirement.as_str());
            out.append(&mut la);
            app_lit(&mut out, "” and “");
            let mut lb = crate::text::chars_of(rb.requirement.as_str());
            out.append(&mut lb);
            app_lit(&mut out, "” requirements");
            proof {
                assert(out@ =~= "complete both the “"@ + ra.requirement@ + "” and “"@
                    + rb.requirement@ + "” requirements"@);
            }
            Ok(out)
        },
        (Rule::Course(ca), Rule::Requirement(rb)) => {
            let mut out: Vec<char> = Vec::new();
            app_lit(&mut out, "take ");
            let mut la = crate::text::chars_of(ca.course.as_str());
            out.append(&mut la);
            app_lit(&mut out, " and complete the “");
            let mut lb = crate::text::chars_of(rb.requirement.as_str());
            out.append(&mut lb);
            app_lit(&mut out, "” requirement");
            proof {
                assert(out@ =~= "take "@ + ca.course@ + " and complete the “"@ + rb.requirement@
                    + "” requirement"@);
            }
            Ok(out)
        },
        (Rule::Requirement(ra), Rule::Course(cb)) => {
            let mut out: Vec<char> = Vec::new();
            app_lit(&mut out, "complete the “");
            let mut la = crate::text::chars_of(ra.requirement.as_str());
            out.append(&mut la);
            app_lit(&mut out, "” requirement and take ");
            let mut lb = crate::text::chars_of(cb.course.as_str());
            out.append(&mut lb);
            proof {
                assert(out@ =~= "complete the “"@ + ra.requirement@ + "” requirement and take "@
                    + cb.course@);
            }
            Ok(out)
        },
        _ => {
            let xr = print_rule_chars(a)?;
            let yr = print_rule_chars(b)?;
            let simple = matches!(a, Rule::Course(_) | Rule::Requirement(_)) || matches!(
                b,
                Rule::Course(_) | Rule::Requirement(_),
            );
            let mut out: Vec<char> = Vec::new();
            let mut x = xr;
            let mut y = yr;
            if simple {
                app_lit(&mut out, "both ");
                out.append(&mut x);
                app_lit(&mut out, " and ");
                out.append(&mut y);
                proof {
                    assert(out@ =~= "both "@ + print_rule_spec(*a)->Ok_0 + " and "@
                        + print_rule_spec(*b)->Ok_0);
                }
            } else {
                app_lit(&mut out, "both:\n\n- ");
                out.append(&mut x);
                app_lit(&mut out, "\n\n- and ");
                out.append(&mut y);
                proof {
                    assert(out@ =~= "both:\n\n- "@ + print_rule_spec(*a)->Ok_0 + "\n\n- and "@
                        + print_rule_spec(*b)->Ok_0);
                }
            }
            Ok(out)
        },
    }
}

/// Collects the inline phrases of the rules, dropping failures (see
/// [`collect_inner_spec`]).
fn collect_inner_chars(v: &[Rule]) -> (res: Vec<Vec<char>>)
    requires
        rules_wf(v@),
    ensures
        res.deep_view() == collect_inner_spec(v@),
    decreases rules_size(v@), 2nat,
{
    if v.len() == 0 {
        let res: Vec<Vec<char>> = Vec::new();
        proof {
            assert(res.deep_view() =~= collect_inner_spec(v@));
        }
        res
    } else {
        proof {
            lemma_rules_size_element(v@, 0);
            lemma_rule_size_pos(v@[0]);
        }
        let first = print_inner_chars(vstd::slice::slice_index_get(v, 0));
        let tail = vstd::slice::slice_subrange(v, 1, v.len());
        proof {
            assert(tail@ =~= v@.drop_first());
            assert(rules_size(v@) == 1 + rule_size(v@[0]) + rules_size(v@.drop_first()));
        }
        let rest = collect_inner_chars(tail);
        match first {
            Ok(t) => {
                let ghost pre = rest.deep_view();
                let ghost pre_shallow = rest@;
                let mut res = rest;
                proof {
                    assert(res.deep_view().len() == pre_shallow.len());
                }
                res.insert(0, t);
                proof {
                    assert forall|j: int| 0 <= j < res@.len() implies res.deep_view()[j] == (seq![
                        print_inner_spec(v@[0])->Ok_0,
                    ] + pre)[j] by {
                        if j == 0 {
                            assert(res@[0]@ =~= print_inner_spec(v@[0])->Ok_0);
                        } else {
                            assert(res@[j] == pre_shallow[j - 1]);
                            assert(pre_shallow[j - 1].deep_view() == pre[j - 1]);
                        }
                    }
                    assert(res.deep_view() =~= collect_inner_spec(v@));
                }
                res
            },
            Err(_) => rest,
        }
    }
}

/// Collects the full sentences of the rules, dropping failures (see
/// [`collect_rule_spec`]).
fn collect_rule_chars(v: &[Rule]) -> (res: Vec<Vec<char>>)
    requires
        rules_wf(v@),
    ensures
        res.deep_view() == collect_rule_spec(v@),
    decreases rules_size(v@), 2nat,
{
    if v.len() == 0 {
        let res: Vec<Vec<char>> = Vec::new();
        proof {
            assert(res.deep_view() =~= collect_rule_spec(v@));
        }
        res
    } else {
        proof {
            lemma_rules_size_element(v@, 0);
            lemma_rule_size_pos(v@[0]);
        }
        let first = print_rule_chars(vstd::slice::slice_index_get(v, 0));
        let tail = vstd::slice::slice_subrange(v, 1, v.len());
        proof {
            assert(tail@ =~= v@.drop_first());
            assert(rules_size(v@) == 1 + rule_size(v@[0]) + rules_size(v@.drop_first()));
        }
        let rest = collect_rule_chars(tail);
        match first {
            Ok(t) => {
                let ghost pre = rest.deep_view();
                let ghost pre_shallow = rest@;
                let mut res = rest;
                proof {
                    assert(res.deep_view().len() == pre_shallow.len());
                }
                res.insert(0, t);
                proof {
                    assert forall|j: int| 0 <= j < res@.len() implies res.deep_view()[j] == (seq![
                        print_rule_spec(v@[0])->Ok_0,
                    ] + pre)[j] by {
                        if j == 0 {
                            assert(res@[0]@ =~= print_rule_spec(v@[0])->Ok_0);
                        } else {
                            assert(res@[j] == pre_shallow[j - 1]);
                            assert(pre_shallow[j - 1].deep_view() == pre[j - 1]);
                        }
                    }
                    assert(res.deep_view() =~= collect_rule_spec(v@));
                }
                res
            },
            Err(_) => rest,
        }
    }
}

} // verus!

verus! {

/// Prefixes every item with `"- "`.
fn prefix_items(items: Vec<Vec<char>>) -> (res: Vec<Vec<char>>)
    ensures
        res.deep_view() == items.deep_view().map_values(|t: Seq<char>| "- "@ + t),
{
    let ghost f = |t: Seq<char>| "- "@ + t;
    let mut res: Vec<Vec<char>> = Vec::new();
    let mut i: usize = 0;
    proof {
        assert(res.deep_view() =~= items.deep_view().take(0int).map_values(f));
    }
    while i < items.len()
        invariant
            i <= items@.len(),
            items.deep_view().len() == items@.len(),
            f == (|t: Seq<char>| "- "@ + t),
            res.deep_view() == items.deep_view().take(i as int).map_values(f),
        decreases items@.len() - i,
    {
        let mut line: Vec<char> = Vec::new();
        app_lit(&mut line, "- ");
        let mut item = items[i].clone();
        proof {
            assert(item@ =~= items.deep_view()[i as int]);
        }
        line.append(&mut item);
        let ghost pre = res.deep_view();
        let ghost pre_shallow = res@;
        proof {
            assert(res.deep_view().len() == pre_shallow.len());
        }
        res.push(line);
        proof {
            assert forall|j: int| 0 <= j < res@.len() implies res.deep_view()[j]
                == items.deep_view().take(i + 1).map_values(f)[j] by {
                if j < pre_shallow.len() {
                    assert(res@[j] == pre_shallow[j]);
                    assert(pre_shallow[j].deep_view() == pre[j]);
                } else {
                    assert(res@[j]@ =~= f(items.deep_view()[i as int]));
                }
            }
            assert(res.deep_view() =~= items.deep_view().take(i + 1).map_values(f));
        }
        i += 1;
    }
    proof {
        assert(items.deep_view().take(items@.len() as int) =~= items.deep_view());
    }
    res
}

/// Renders a block list of elided items (see [`block_elided_spec`]).
fn block_elided_chars(v: &[Rule]) -> (res: Vec<char>)
    requires
        rules_wf(v@),
    ensures
        res@ == block_elided_spec(v@),
    decreases rules_size(v@), 3nat,
{
    let items = collect_inner_chars(v);
    let prefixed = prefix_items(items);
    let nl = ['\n'];
    let out = crate::text::join_with(&prefixed, &nl);
    proof {
        assert(nl@ =~= "\n"@) by {
            reveal_strlit("\n");
        }
    }
    out
}

/// Renders a block list of full items (see [`block_verbose_spec`]).
fn block_verbose_chars(v: &[Rule]) -> (res: Vec<char>)
    requires
        rules_wf(v@),
    ensures
        res@ == block_verbose_spec(v@),
    decreases rules_size(v@), 3nat,
{
    let items = collect_rule_chars(v);
    let prefixed = prefix_items(items);
    let nl = ['\n'];
    let out = crate::text::join_with(&prefixed, &nl);
    proof {
        assert(nl@ =~= "\n"@) by {
            reveal_strlit("\n");
        }
    }
    out
}

/// Splitting the collection at an appended element.
proof fn lemma_collect_inner_snoc(l: Seq<Rule>, r: Rule)
    ensures
        collect_inner_spec(l.push(r)) == (match print_inner_spec(r) {
            Ok(t) => collect_inner_spec(l).push(t),
            Err(_) => collect_inner_spec(l),
        }),
    decreases l.len(),
{
    if l.len() == 0 {
        assert(l.push(r)[0] == r);
        assert(l.push(r).drop_first() =~= Seq::<Rule>::empty());
        assert(collect_inner_spec(Seq::<Rule>::empty()) =~= Seq::<Seq<char>>::empty());
        assert(collect_inner_spec(l) =~= Seq::<Seq<char>>::empty());
        match print_inner_spec(r) {
            Ok(t) => {
                assert(collect_inner_spec(l.push(r)) == seq![t] + collect_inner_spec(
                    l.push(r).drop_first(),
                ));
                assert(seq![t] + collect_inner_spec(Seq::<Rule>::empty()) =~= collect_inner_spec(
                    l,
                ).push(t));
            },
            Err(_) => {
                assert(collect_inner_spec(l.push(r)) == collect_inner_spec(
                    l.push(r).drop_first(),
                ));
            },
        }
    } else {
        assert(l.push(r)[0] == l[0]);
        assert(l.push(r).drop_first() =~= l.drop_first().push(r));
        lemma_collect_inner_snoc(l.drop_first(), r);
        match print_inner_spec(l[0]) {
            Ok(t0) => {
                assert(collect_inner_spec(l.push(r)) == seq![t0] + collect_inner_spec(
                    l.drop_first().push(r),
                ));
                assert(collect_inner_spec(l) == seq![t0] + collect_inner_spec(l.drop_first()));
                match print_inner_spec(r) {
                    Ok(t) => {
                        assert(seq![t0] + collect_inner_spec(l.drop_first()).push(t) =~= (seq![t0]
                            + collect_inner_spec(l.drop_first())).push(t));
                    },
                    Err(_) => {},
                }
            },
            Err(_) => {
                assert(collect_inner_spec(l.push(r)) == collect_inner_spec(
                    l.drop_first().push(r),
                ));
                assert(collect_inner_spec(l) == collect_inner_spec(l.drop_first()));
            },
        }
    }
}

/// The collection distributes over concatenation.
proof fn lemma_collect_inner_concat(x: Seq<Rule>, y: Seq<Rule>)
    ensures
        collect_inner_spec(x + y) == collect_inner_spec(x) + collect_inner_spec(y),
    decreases y.len(),
{
    if y.len() == 0 {
        assert(x + y =~= x);
        assert(collect_inner_spec(x) + collect_inner_spec(y) =~= collect_inner_spec(x));
    } else {
        assert(x + y =~= (x + y.drop_last()).push(y.last()));
        lemma_collect_inner_concat(x, y.drop_last());
        lemma_collect_inner_snoc(x + y.drop_last(), y.last());
        assert(y =~= y.drop_last().push(y.last()));
        lemma_collect_inner_snoc(y.drop_last(), y.last());
        match print_inner_spec(y.last()) {
            Ok(t) => {
                assert((collect_inner_spec(x) + collect_inner_spec(y.drop_last())).push(t)
                    =~= collect_inner_spec(x) + collect_inner_spec(y.drop_last()).push(t));
            },
            Err(_) => {},
        }
    }
}

/// Collects the inline phrases of the courses first, then of the other
/// rules, matching [`courses_of`] ++ [`non_courses_of`].
fn collect_mixed_chars(v: &[Rule]) -> (res: Vec<Vec<char>>)
    requires
        rules_wf(v@),
    ensures
        res.deep_view() == collect_inner_spec(courses_of(v@) + non_courses_of(v@)),
    decreases rules_size(v@), 4nat,
{
    let mut items: Vec<Vec<char>> = Vec::new();
    let mut i: usize = 0;
    proof {
        assert(v@.take(0int) =~= Seq::<Rule>::empty());
        assert(items.deep_view() =~= collect_inner_spec(courses_of(v@.take(0int))));
    }
    while i < v.len()
        invariant
            i <= v@.len(),
            rules_wf(v@),
            items.deep_view() == collect_inner_spec(courses_of(v@.take(i as int))),
        decreases v@.len() - i,
    {
        proof {
            lemma_rules_wf_element(v@, i as int);
            lemma_rules_size_element(v@, i as int);
            lemma_rule_size_pos(v@[i as int]);
            assert(v@.take(i + 1).drop_last() =~= v@.take(i as int));
            assert(v@.take(i + 1).last() == v@[i as int]);
        }
        let r = vstd::slice::slice_index_get(v, i);
        match r {
            Rule::Course(_) => {
                proof {
                    lemma_collect_inner_snoc(courses_of(v@.take(i as int)), v@[i as int]);
                    assert(courses_of(v@.take(i + 1)) == courses_of(v@.take(i as int)).push(v@[
                        i as int]));
                }
                match print_inner_chars(r) {
                    Ok(t) => {
                        let ghost pre = items.deep_view();
                        let ghost pre_shallow = items@;
                        proof {
                            assert(items.deep_view().len() == pre_shallow.len());
                        }
                        items.push(t);
                        proof {
                            assert forall|j: int| 0 <= j < items@.len() implies items.deep_view()[j]
                                == pre.push(print_inner_spec(v@[i as int])->Ok_0)[j] by {
                                if j < pre_shallow.len() {
                                    assert(items@[j] == pre_shallow[j]);
                                    assert(pre_shallow[j].deep_view() == pre[j]);
                                } else {
                                    assert(items@[j]@ =~= print_inner_spec(v@[i as int])->Ok_0);
                                }
                            }
                            assert(items.deep_view() =~= pre.push(
                                print_inner_spec(v@[i as int])->Ok_0,
                            ));
                        }
                    },
                    Err(_) => {},
                }
            },
            _ => {
                proof {
                    assert(courses_of(v@.take(i + 1)) == courses_of(v@.take(i as int)));
                }
            },
        }
        i += 1;
    }
    proof {
        assert(v@.take(v@.len() as int) =~= v@);
    }
    // then the non-courses
    let mut i: usize = 0;
    proof {
        assert(non_courses_of(v@.take(0int)) =~= Seq::<Rule>::empty());
        lemma_collect_inner_concat(courses_of(v@), non_courses_of(v@.take(0int)));
        assert(courses_of(v@) + non_courses_of(v@.take(0int)) =~= courses_of(v@));
    }
    while i < v.len()
        invariant
            i <= v@.len(),
            rules_wf(v@),
            items.deep_view() == collect_inner_spec(
                courses_of(v@) + non_courses_of(v@.take(i as int)),
            ),
        decreases v@.len() - i,
    {
        proof {
            lemma_rules_wf_element(v@, i as int);
            lemma_rules_size_element(v@, i as int);
            lemma_rule_size_pos(v@[i as int]);
            assert(v@.take(i + 1).drop_last() =~= v@.take(i as int));
            assert(v@.take(i + 1).last() == v@[i as int]);
        }
        let r = vstd::slice::slice_index_get(v, i);
        match r {
            Rule::Course(_) => {
                proof {
                    assert(non_courses_of(v@.take(i + 1)) == non_courses_of(v@.take(i as int)));
                }
            },
            _ => {
                proof {
                    assert(non_courses_of(v@.take(i + 1)) == non_courses_of(v@.take(i as int)).push(
                        v@[i as int],
                    ));
                    assert(courses_of(v@) + non_courses_of(v@.take(i + 1)) =~= (courses_of(v@)
                        + non_courses_of(v@.take(i as int))).push(v@[i as int]));
                    lemma_collect_inner_snoc(
                        courses_of(v@) + non_courses_of(v@.take(i as int)),
                        v@[i as int],
                    );
                }
                match print_inner_chars(r) {
                    Ok(t) => {
                        let ghost pre = items.deep_view();
                        let ghost pre_shallow = items@;
                        proof {
                            assert(items.deep_view().len() == pre_shallow.len());
                        }
                        items.push(t);
                        proof {
                            assert forall|j: int| 0 <= j < items@.len() implies items.deep_view()[j]
                                == pre.push(print_inner_spec(v@[i as int])->Ok_0)[j] by {
                                if j < pre_shallow.len() {
                                    assert(items@[j] == pre_shallow[j]);
                                    assert(pre_shallow[j].deep_view() == pre[j]);
                                } else {
                                    assert(items@[j]@ =~= print_inner_spec(v@[i as int])->Ok_0);
                                }
                            }
                            assert(items.deep_view() =~= pre.push(
                                print_inner_spec(v@[i as int])->Ok_0,
                            ));
                        }
                    },
                    Err(_) => {},
                }
            },
        }
        i += 1;
    }
    proof {
        assert(v@.take(v@.len() as int) =~= v@);
    }
    items
}

} // verus!

verus! {

/// Renders an at-least-`count`-of-these rule (see [`print_count_spec`]).
fn print_count_chars(count: u64, l: &[Rule]) -> (res: Result<Vec<char>, RenderError>)
    requires
        rules_wf(l@),
    ensures
        chars_res_view(res) == print_count_spec(count, l@),
    decreases rules_size(l@), 5nat,
{
    proof {
        if l@.len() >= 1 {
            lemma_rules_size_element(l@, 0);
            lemma_rule_size_pos(l@[0]);
            lemma_rules_wf_element(l@, 0);
        }
        if l@.len() >= 2 {
            lemma_rules_size_pair(l@);
            lemma_rules_wf_element(l@, 1);
        }
    }
    if l.len() == 1 {
        let req = print_inner_chars(vstd::slice::slice_index_get(l, 0))?;
        let mut out: Vec<char> = Vec::new();
        if only_requirements(l) {
            app_lit(&mut out, "complete the ");
            let mut r = req;
            out.append(&mut r);
            app_lit(&mut out, " requirement");
            proof {
                assert(out@ =~= "complete the "@ + print_inner_spec(l@[0])->Ok_0
                    + " requirement"@);
            }
            Ok(out)
        } else if only_courses(l) {
            app_lit(&mut out, "take ");
            let mut r = req;
            out.append(&mut r);
            proof {
                assert(out@ =~= "take "@ + print_inner_spec(l@[0])->Ok_0);
            }
            Ok(out)
        } else {
            Ok(req)
        }
    } else if l.len() == 2 && count == 1 {
        print_either_chars(vstd::slice::slice_index_get(l, 0), vstd::slice::slice_index_get(l, 1))
    } else if l.len() == 2 && count == 2 {
        print_both_chars(vstd::slice::slice_index_get(l, 0), vstd::slice::slice_index_get(l, 1))
    } else if count == 1 {
        let mut out: Vec<char> = Vec::new();
        if should_be_inline(l) {
            if only_requirements(l) {
                app_lit(&mut out, "complete one requirement from among ");
                let items = collect_inner_chars(l);
                let conj = ['o', 'r'];
                let mut joined = crate::text::oxford(&items, &conj);
                proof {
                    reveal_strlit("or");
                    assert(conj@ =~= "or"@);
                }
                out.append(&mut joined);
                Ok(out)
            } else if only_courses(l) {
                app_lit(&mut out, "take one course from among ");
                let items = collect_inner_chars(l);
                let conj = ['o', 'r'];
                let mut joined = crate::text::oxford(&items, &conj);
                proof {
                    reveal_strlit("or");
                    assert(conj@ =~= "or"@);
                }
                out.append(&mut joined);
                Ok(out)
            } else if only_courses_and_requirements(l) {
                let (which, ra, rb, rc) = collect_and_sort_three_up(l)?;
                proof {
                    let (sw, ia, ib, ic) = three_up_spec(l@)->Ok_0;
                    lemma_rules_size_element(l@, ia);
                    lemma_rules_size_element(l@, ib);
                    lemma_rules_size_element(l@, ic);
                    lemma_rules_wf_element(l@, ia);
                    lemma_rules_wf_element(l@, ib);
                    lemma_rules_wf_element(l@, ic);
                    lemma_rule_size_pos(l@[ia]);
                    lemma_rule_size_pos(l@[ib]);
                    lemma_rule_size_pos(l@[ic]);
                }
                let a = print_inner_chars(ra)?;
                let b = print_inner_chars(rb)?;
                let c = print_inner_chars(rc)?;
                let mut a = a;
                let mut b = b;
                let mut c = c;
                match which {
                    WhichUp::Course => {
                        app_lit(&mut out, "take ");
                        out.append(&mut a);
                        app_lit(&mut out, " or ");
                        out.append(&mut b);
                        app_lit(&mut out, ", or complete the ");
                        out.append(&mut c);
                        app_lit(&mut out, " requirement");
                        proof {
                            let (sw, ia, ib, ic) = three_up_spec(l@)->Ok_0;
                            assert(out@ =~= "take "@ + print_inner_spec(l@[ia])->Ok_0 + " or "@
                                + print_inner_spec(l@[ib])->Ok_0 + ", or complete the "@
                                + print_inner_spec(l@[ic])->Ok_0 + " requirement"@);
                        }
                    },
                    WhichUp::Requirement => {
                        app_lit(&mut out, "take ");
                        out.append(&mut a);
                        app_lit(&mut out, ", or complete either the ");
                        out.append(&mut b);
                        app_lit(&mut out, " or ");
                        out.append(&mut c);
                        app_lit(&mut out, " requirements");
                        proof {
                            let (sw, ia, ib, ic) = three_up_spec(l@)->Ok_0;
                            assert(out@ =~= "take "@ + print_inner_spec(l@[ia])->Ok_0
                                + ", or complete either the "@ + print_inner_spec(l@[ib])->Ok_0
                                + " or "@ + print_inner_spec(l@[ic])->Ok_0 + " requirements"@);
                        }
                    },
                }
                Ok(out)
            } else {
                app_lit(&mut out, "do one of the following:\n\n");
                let mut block = block_verbose_chars(l);
                out.append(&mut block);
                Ok(out)
            }
        } else {
            if only_requirements(l) {
                app_lit(&mut out, "complete one of the following requirements:\n\n");
                let mut block = block_elided_chars(l);
                out.append(&mut block);
                Ok(out)
            } else if only_courses(l) {
                app_lit(&mut out, "take one of the following courses:\n\n");
                let mut block = block_elided_chars(l);
                out.append(&mut block);
                Ok(out)
            } else {
                app_lit(&mut out, "do one of the following:\n\n");
                let mut block = block_verbose_chars(l);
                out.append(&mut block);
                Ok(out)
            }
        }
    } else if count == (l.len() as u64) {
        let mut out: Vec<char> = Vec::new();
        if should_be_inline(l) {
            if only_requirements(l) {
                app_lit(&mut out, "complete ");
                let items = collect_inner_chars(l);
                let conj = ['a', 'n', 'd'];
                let mut joined = crate::text::oxford(&items, &conj);
                proof {
                    reveal_strlit("and");
                    assert(conj@ =~= "and"@);
                }
                out.append(&mut joined);
                Ok(out)
            } else if only_courses(l) {
                app_lit(&mut out, "take ");
                let items = collect_inner_chars(l);
                let conj = ['a', 'n', 'd'];
                let mut joined = crate::text::oxford(&items, &conj);
                proof {
                    reveal_strlit("and");
                    assert(conj@ =~= "and"@);
                }
                out.append(&mut joined);
                Ok(out)
            } else if only_courses_and_requirements(l) {
                let (which, ra, rb, rc) = collect_and_sort_three_up(l)?;
                proof {
                    let (sw, ia, ib, ic) = three_up_spec(l@)->Ok_0;
                    lemma_rules_size_element(l@, ia);
                    lemma_rules_size_element(l@, ib);
                    lemma_rules_size_element(l@, ic);
                    lemma_rules_wf_element(l@, ia);
                    lemma_rules_wf_element(l@, ib);
                    lemma_rules_wf_element(l@, ic);
                    lemma_rule_size_pos(l@[ia]);
                    lemma_rule_size_pos(l@[ib]);
                    lemma_rule_size_pos(l@[ic]);
                }
                let a = print_inner_chars(ra)?;
                let b = print_inner_chars(rb)?;
                let c = print_inner_chars(rc)?;
                let mut a = a;
                let mut b = b;
                let mut c = c;
                match which {
                    WhichUp::Course => {
                        app_lit(&mut out, "take ");
                        out.append(&mut a);
                        app_lit(&mut out, " and ");
                        out.append(&mut b);
                        app_lit(&mut out, ", and complete the ");
                        out.append(&mut c);
                        app_lit(&mut out, " requirement");
                        proof {
                            let (sw, ia, ib, ic) = three_up_spec(l@)->Ok_0;
                            assert(out@ =~= "take "@ + print_inner_spec(l@[ia])->Ok_0 + " and "@
                                + print_inner_spec(l@[ib])->Ok_0 + ", and complete the "@
                                + print_inner_spec(l@[ic])->Ok_0 + " requirement"@);
                        }
                    },
                    WhichUp::Requirement => {
                        app_lit(&mut out, "take ");
                        out.append(&mut a);
                        app_lit(&mut out, ", and complete both the ");
                        out.append(&mut b);
                        app_lit(&mut out, " and ");
                        out.append(&mut c);
                        app_lit(&mut out, " requirements");
                        proof {
                            let (sw, ia, ib, ic) = three_up_spec(l@)->Ok_0;
                            assert(out@ =~= "take "@ + print_inner_spec(l@[ia])->Ok_0
                                + ", and complete both the "@ + print_inner_spec(l@[ib])->Ok_0
                                + " and "@ + print_inner_spec(l@[ic])->Ok_0 + " requirements"@);
                        }
                    },
                }
                Ok(out)
            } else {
                app_lit(&mut out, "do all of the following:\n\n");
                let mut block = block_verbose_chars(l);
                out.append(&mut block);
                Ok(out)
            }
        } else {
            if only_requirements(l) {
                app_lit(&mut out, "complete all of the following requirements:\n\n");
                let mut block = block_elided_chars(l);
                out.append(&mut block);
                Ok(out)
            } else if only_courses(l) {
                app_lit(&mut out, "take all of the following courses:\n\n");
                let mut block = block_elided_chars(l);
                out.append(&mut block);
                Ok(out)
            } else {
                app_lit(&mut out, "do all of the following:\n\n");
                let mut block = block_verbose_chars(l);
                out.append(&mut block);
                Ok(out)
            }
        }
    } else {
        let n = crate::text::english(count);
        let mut out: Vec<char> = Vec::new();
        if should_be_inline(l) {
            if only_requirements(l) {
                app_lit(&mut out, "complete ");
                let mut nw = n;
                out.append(&mut nw);
                app_lit(&mut out, " requirements from among ");
                let items = collect_inner_chars(l);
                let conj = ['o', 'r'];
                let mut joined = crate::text::oxford(&items, &conj);
                proof {
                    reveal_strlit("or");
                    assert(conj@ =~= "or"@);
                }
                out.append(&mut joined);
                Ok(out)
            } else if only_courses(l) {
                app_lit(&mut out, "take ");
                let mut nw = n;
                out.append(&mut nw);
                app_lit(&mut out, " courses from among ");
                let items = collect_inner_chars(l);
                let conj = ['o', 'r'];
                let mut joined = crate::text::oxford(&items, &conj);
                proof {
                    reveal_strlit("or");
                    assert(conj@ =~= "or"@);
                }
                out.append(&mut joined);
                Ok(out)
            } else if only_courses_and_requirements(l) {
                app_lit(&mut out, "complete or take ");
                let mut nw = n;
                out.append(&mut nw);
                app_lit(&mut out, " requirements or courses from among ");
                let items = collect_mixed_chars(l);
                let conj = ['o', 'r'];
                let mut joined = crate::text::oxford(&items, &conj);
                proof {
                    reveal_strlit("or");
                    assert(conj@ =~= "or"@);
                }
                out.append(&mut joined);
                Ok(out)
            } else {
                app_lit(&mut out, "do ");
                let mut nw = n;
                out.append(&mut nw);
                app_lit(&mut out, " from among the following:\n\n");
                let mut block = block_verbose_chars(l);
                out.append(&mut block);
                Ok(out)
            }
        } else {
            if only_requirements(l) {
                app_lit(&mut out, "complete ");
                let mut nw = n;
                out.append(&mut nw);
                app_lit(&mut out, " from among the following requirements:\n\n");
                let mut block = block_elided_chars(l);
                out.append(&mut block);
                Ok(out)
            } else if only_courses(l) {
                app_lit(&mut out, "take ");
                let mut nw = n;
                out.append(&mut nw);
                app_lit(&mut out, " of the following courses:\n\n");
                let mut block = block_elided_chars(l);
                out.append(&mut block);
                Ok(out)
            } else {
                app_lit(&mut out, "do ");
                let mut nw = n;
                out.append(&mut nw);
                app_lit(&mut out, " from among the following:\n\n");
                let mut block = block_verbose_chars(l);
                out.append(&mut block);
                Ok(out)
            }
        }
    }
}

} // verus!

verus! {

/// The view of a rendered string result.
pub open spec fn string_res_view(r: Result<String, RenderError>) -> Result<
    Seq<char>,
    RenderError,
> {
    match r {
        Ok(v) => Ok(v@),
        Err(e) => Err(e),
    }
}

/// Converts rendered character buffers into strings, keeping their text.
fn char_lists_to_strings(v: Vec<Vec<char>>) -> (r: Vec<String>)
    ensures
        r.deep_view() == v.deep_view(),
{
    let mut r: Vec<String> = Vec::new();
    let mut i: usize = 0;
    proof {
        assert(r.deep_view() =~= v.deep_view().take(0int));
    }
    while i < v.len()
        invariant
            i <= v@.len(),
            v.deep_view().len() == v@.len(),
            r.deep_view() == v.deep_view().take(i as int),
        decreases v@.len() - i,
    {
        let s = crate::text::string_of(&v[i]);
        let ghost pre = r.deep_view();
        let ghost pre_shallow = r@;
        proof {
            assert(r.deep_view().len() == pre_shallow.len());
        }
        r.push(s);
        proof {
            assert forall|j: int| 0 <= j < r@.len() implies r.deep_view()[j] == v.deep_view().take(
                i + 1,
            )[j] by {
                if j < pre_shallow.len() {
                    assert(r@[j] == pre_shallow[j]);
                    assert(pre_shallow[j].deep_view() == pre[j]);
                } else {
                    assert(r@[j]@ =~= v@[i as int]@);
                }
            }
            assert(r.deep_view() =~= v.deep_view().take(i + 1));
        }
        i += 1;
    }
    proof {
        assert(v.deep_view().take(v@.len() as int) =~= v.deep_view());
    }
    r
}

/// The inline phrases of the rules, in order, dropping any that fail.
pub fn print_and_collect(v: &[Rule]) -> (r: Vec<String>)
    requires
        rules_wf(v@),
    ensures
        r.deep_view() == collect_inner_spec(v@),
{
    char_lists_to_strings(collect_inner_chars(v))
}

/// The rules as a block of elided one-line items.
pub fn print_and_join_for_block_elided(v: &[Rule]) -> (r: String)
    requires
        rules_wf(v@),
    ensures
        r@ == block_elided_spec(v@),
{
    let out = block_elided_chars(v);
    crate::text::string_of(&out)
}

/// The rules as a block of full recursive items.
pub fn print_and_join_for_block_verbose(v: &[Rule]) -> (r: String)
    requires
        rules_wf(v@),
    ensures
        r@ == block_verbose_spec(v@),
{
    let out = block_verbose_chars(v);
    crate::text::string_of(&out)
}

impl Rule {
    /// The sentence this rule renders to (see [`print_rule_spec`]).
    pub fn print(&self) -> (r: Result<String, RenderError>)
        requires
            rule_wf(*self),
        ensures
            string_res_view(r) == print_rule_spec(*self),
    {
        match print_rule_chars(self) {
            Ok(out) => Ok(crate::text::string_of(&out)),
            Err(e) => Err(e),
        }
    }

    /// The inline phrase this rule renders to inside a list (see
    /// [`print_inner_spec`]).
    pub fn print_inner(&self) -> (r: Result<String, RenderError>)
        requires
            rule_wf(*self),
        ensures
            string_res_view(r) == print_inner_spec(*self),
    {
        match print_inner_chars(self) {
            Ok(out) => Ok(crate::text::string_of(&out)),
            Err(e) => Err(e),
        }
    }
}

impl either::Rule {
    /// The sentence this either rule renders to (see [`print_either_spec`]).
    pub fn print(&self) -> (r: Result<String, RenderError>)
        requires
            rule_wf(*self.either.0),
            rule_wf(*self.either.1),
        ensures
            string_res_view(r) == print_either_spec(*self.either.0, *self.either.1),
    {
        match print_either_chars(&self.either.0, &self.either.1) {
            Ok(out) => Ok(crate::text::string_of(&out)),
            Err(e) => Err(e),
        }
    }
}

impl both::Rule {
    /// The sentence this both rule renders to (see [`print_both_spec`]).
    pub fn print(&self) -> (r: Result<String, RenderError>)
        requires
            rule_wf(*self.both.0),
            rule_wf(*self.both.1),
        ensures
            string_res_view(r) == print_both_spec(*self.both.0, *self.both.1),
    {
        match print_both_chars(&self.both.0, &self.both.1) {
            Ok(out) => Ok(crate::text::string_of(&out)),
            Err(e) => Err(e),
        }
    }
}

impl CountOfRule {
    /// The sentence this count-of rule renders to (see
    /// [`print_count_spec`]).
    pub fn print(&self) -> (r: Result<String, RenderError>)
        requires
            rules_wf(self.of@),
        ensures
            string_res_view(r) == print_count_spec(self.count, self.of@),
    {
        match print_count_chars(self.count, self.of.as_slice()) {
            Ok(out) => Ok(crate::text::string_of(&out)),
            Err(e) => Err(e),
        }
    }
}

} // verus!
