//! The prose renderer: either/both phrasing, inline mixed triples, and
//! block layout, against rule trees built from their document form.

use degreepath_auditor::rules::either;
use degreepath_auditor::rules::{
    Action, CourseRule, CountOfRule, Given, GivenCoursesWhatOptions, GivenRule, RepeatMode,
    ReqRefRule, Rule,
};

/// Builds a rule from its compact document form, mirroring how the
/// surrounding loader reads one: a bare string is a course, a
/// `requirement:` mapping is a reference, an `either:` mapping holds two
/// children, and a `given:` mapping holds a match rule.
fn rule_from_yaml(v: &serde_yaml::Value) -> Rule {
    match v {
        serde_yaml::Value::String(s) => Rule::Course(CourseRule { course: s.clone() }),
        serde_yaml::Value::Mapping(m) => {
            let key = |k: &str| serde_yaml::Value::String(k.to_string());
            if let Some(serde_yaml::Value::String(name)) = m.get(&key("requirement")) {
                let optional = match m.get(&key("optional")) {
                    Some(serde_yaml::Value::Bool(b)) => *b,
                    _ => false,
                };
                return Rule::Requirement(ReqRefRule { requirement: name.clone(), optional });
            }
            if let Some(serde_yaml::Value::Sequence(pair)) = m.get(&key("either")) {
                assert_eq!(pair.len(), 2);
                return Rule::Either(either::Rule {
                    either: (
                        Box::new(rule_from_yaml(&pair[0])),
                        Box::new(rule_from_yaml(&pair[1])),
                    ),
                    surplus: None,
                });
            }
            if let Some(given) = m.get(&key("given")) {
                let what = match m.get(&key("what")) {
                    Some(serde_yaml::Value::String(w)) if w == "credits" => {
                        GivenCoursesWhatOptions::Credits
                    }
                    _ => GivenCoursesWhatOptions::Courses,
                };
                let action: Action = match m.get(&key("do")) {
                    Some(serde_yaml::Value::String(a)) => a.parse().unwrap(),
                    _ => panic!("given rule without an action"),
                };
                let given = match given {
                    serde_yaml::Value::String(g) if g == "courses" => {
                        Given::AllCourses { what }
                    }
                    serde_yaml::Value::String(g) if g == "these courses" => {
                        let courses = match m.get(&key("courses")) {
                            Some(serde_yaml::Value::Sequence(cs)) => cs
                                .iter()
                                .map(|c| match c {
                                    serde_yaml::Value::String(s) => s.clone(),
                                    _ => panic!("course labels must be strings"),
                                })
                                .collect(),
                            _ => panic!("these courses without a course list"),
                        };
                        let repeats = match m.get(&key("repeats")) {
                            Some(serde_yaml::Value::String(r)) if r == "all" => RepeatMode::All,
                            _ => RepeatMode::First,
                        };
                        Given::TheseCourses { courses, repeats, what }
                    }
                    serde_yaml::Value::String(g) if g == "save" => {
                        let save = match m.get(&key("save")) {
                            Some(serde_yaml::Value::String(s)) => s.clone(),
                            _ => panic!("save reference without a name"),
                        };
                        Given::NamedVariable { save, what }
                    }
                    _ => panic!("unknown given source"),
                };
                return Rule::Given(GivenRule { given, filter: None, action });
            }
            panic!("unknown rule form: {:?}", m)
        }
        _ => panic!("unknown rule form"),
    }
}

fn either_from_yaml(text: &str) -> either::Rule {
    let v: serde_yaml::Value = serde_yaml::from_str(text).unwrap();
    match rule_from_yaml(&v) {
        Rule::Either(e) => e,
        _ => panic!("not an either rule"),
    }
}

#[test]
fn pretty_print() {
    let input = either_from_yaml("{either: [{requirement: A}, {requirement: B}]}");
    let expected = "complete either the “A” or “B” requirement";
    assert_eq!(expected, input.print().unwrap());

    let input = either_from_yaml("{either: [CS 111, CS 121]}");
    let expected = "take either CS 111 or CS 121";
    assert_eq!(expected, input.print().unwrap());

    let input = either_from_yaml("{either: [CS 121, {requirement: A}]}");
    let expected = "take CS 121 or complete the “A” requirement";
    assert_eq!(expected, input.print().unwrap());

    let input = either_from_yaml("{either: [{requirement: A}, CS 121]}");
    let expected = "complete the “A” requirement or take CS 121";
    assert_eq!(expected, input.print().unwrap());

    let input = either_from_yaml("{either: [CS 121, {either: [CS 251, CS 130]}]}");
    let expected = "either take CS 121 or take either CS 251 or CS 130";
    assert_eq!(expected, input.print().unwrap());

    let input = either_from_yaml("{either: [{requirement: A}, {either: [CS 251, CS 130]}]}");
    let expected = "either complete the “A” requirement or take either CS 251 or CS 130";
    assert_eq!(expected, input.print().unwrap());

    let input = either_from_yaml(
        "{either: [{given: courses, what: courses, do: count >= 3}, CS 121]}",
    );
    let expected = "either take at least three courses or take CS 121";
    assert_eq!(expected, input.print().unwrap());

    let input = either_from_yaml(
        "{either: [{given: courses, what: courses, do: count >= 3}, {requirement: A}]}",
    );
    let expected = "either take at least three courses or complete the “A” requirement";
    assert_eq!(expected, input.print().unwrap());

    let input = either_from_yaml(
        "{either: [{given: courses, what: courses, do: count >= 3}, {given: these courses, courses: [THEAT 233], repeats: all, what: courses, do: count >= 4}]}",
    );
    let expected = "either:\n\n- take at least three courses\n\n- or take THEAT 233 at least four times";
    assert_eq!(expected, input.print().unwrap());
}

fn course(label: &str) -> Rule {
    Rule::Course(CourseRule { course: label.to_string() })
}

fn requirement(name: &str) -> Rule {
    Rule::Requirement(ReqRefRule { requirement: name.to_string(), optional: false })
}

#[test]
fn any_mixed_triple_reorders_courses_first() {
    let node = CountOfRule { count: 1, of: vec![course("X"), course("Y"), requirement("Z")] };
    let expected = "take X or Y, or complete the “Z” requirement";
    assert_eq!(expected, node.print().unwrap());

    // the odd one out keeps its place whatever the input order
    let node = CountOfRule { count: 1, of: vec![course("X"), requirement("Z"), course("Y")] };
    assert_eq!(expected, node.print().unwrap());
    let node = CountOfRule { count: 1, of: vec![requirement("Z"), course("X"), course("Y")] };
    assert_eq!(expected, node.print().unwrap());
}

#[test]
fn any_mixed_triple_requirement_majority() {
    let node = CountOfRule { count: 1, of: vec![course("X"), requirement("A"), requirement("B")] };
    let expected = "take X, or complete either the “A” or “B” requirements";
    assert_eq!(expected, node.print().unwrap());
}

#[test]
fn inline_any_of_courses() {
    let node = CountOfRule { count: 1, of: vec![course("A"), course("B"), course("C")] };
    assert_eq!("take one course from among A, B, or C", node.print().unwrap());
}

#[test]
fn block_any_of_requirements() {
    let node = CountOfRule {
        count: 1,
        of: vec![requirement("A"), requirement("B"), requirement("C"), requirement("D")],
    };
    assert_eq!(
        "complete one of the following requirements:\n\n- “A”\n- “B”\n- “C”\n- “D”",
        node.print().unwrap()
    );
}

#[test]
fn numeric_count_of_courses() {
    let node = CountOfRule {
        count: 2,
        of: vec![course("A"), course("B"), course("C"), course("D"), course("E")],
    };
    assert_eq!(
        "take two of the following courses:\n\n- A\n- B\n- C\n- D\n- E",
        node.print().unwrap()
    );
}

#[test]
fn single_unwraps() {
    let node = CountOfRule { count: 1, of: vec![requirement("A")] };
    assert_eq!("complete the “A” requirement", node.print().unwrap());
    let node = CountOfRule { count: 1, of: vec![course("CS 111")] };
    assert_eq!("take CS 111", node.print().unwrap());
}

#[test]
fn both_of_two_courses() {
    let node = CountOfRule { count: 2, of: vec![course("CS 111"), course("CS 121")] };
    assert_eq!("take both CS 111 and CS 121", node.print().unwrap());
}

#[test]
fn print_and_collect_gathers_inline_phrases() {
    let rules = vec![course("A"), requirement("B")];
    let collected = degreepath_auditor::rules::print::print_and_collect(&rules);
    assert_eq!(collected, vec!["A".to_string(), "“B”".to_string()]);

    let elided =
        degreepath_auditor::rules::print::print_and_join_for_block_elided(&rules);
    assert_eq!(elided, "- A\n- “B”");

    let verbose =
        degreepath_auditor::rules::print::print_and_join_for_block_verbose(&rules);
    assert_eq!(verbose, "- take A\n- complete the “B” requirement");
}

#[test]
fn three_up_rejects_uniform_triples() {
    let rules = vec![course("A"), course("B"), course("C")];
    let r = degreepath_auditor::rules::print::collect_and_sort_three_up(&rules);
    assert_eq!(r.err(), Some(degreepath_auditor::RenderError::UnreachableShape));
}
