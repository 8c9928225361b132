//! The evaluated tree: status rollup, audit rows with waiver propagation,
//! course labels, and given/match evaluation over a transcript.

use degreepath_auditor::rule::count::CountRule;
use degreepath_auditor::rule::{
    Path, ProseOptions, RecordOptions, RequirementRule, Rule, RuleStatus,
};
use degreepath_auditor::rules::both;
use degreepath_auditor::rules::Rule as ParsedRule;
use degreepath_auditor::rules::{Action, CountOfRule, Given, GivenCoursesWhatOptions, GivenRule};
use degreepath_auditor::student::{ClassLabId, Course, CourseId, Student, StudentPerformingMediums};

fn course(subject: &str, number: &str, term: &str, level: u64, credits: &str) -> Course {
    Course {
        attributes: vec![],
        clbid: ClassLabId(format!("{}-{}-{}", subject, number, term)),
        course: format!("{} {}", subject, number),
        course_type: "Research".to_string(),
        credits: credits.to_string(),
        crsid: CourseId(format!("{}{}", subject, number)),
        flag_gpa: true,
        flag_in_progress: false,
        flag_incomplete: false,
        flag_individual_major: false,
        flag_repeat: false,
        flag_stolaf: true,
        gereqs: vec![],
        grade_code: "B+".to_string(),
        grade_option: "Grade".to_string(),
        grade_points: "3.3".to_string(),
        grade_points_gpa: "3.3".to_string(),
        institution_name: "St. Olaf College".to_string(),
        institution_short: "STOLAF".to_string(),
        level,
        name: format!("{} {}", subject, number),
        number: number.to_string(),
        section: None,
        sub_type: "".to_string(),
        subject: subject.to_string(),
        term: term.to_string(),
        transcript_code: "".to_string(),
        transcript_code_long: "".to_string(),
        year: "2019".to_string(),
    }
}

fn student(courses: Vec<Course>) -> Student {
    Student {
        areas: vec![],
        catalog: "2019-20".to_string(),
        courses,
        covid: None,
        current_term: "2019-1".to_string(),
        curriculum: "2019".to_string(),
        matriculation: "2019".to_string(),
        mediums: StudentPerformingMediums {
            ppm: "".to_string(),
            ppm2: "".to_string(),
            spm: "".to_string(),
            spm2: "".to_string(),
        },
        organizations: vec![],
        performance_attendances: vec![],
        performances: vec![],
        stnum: "000001".to_string(),
    }
}

fn req_leaf(name: &str, status: RuleStatus, content: Vec<String>) -> Box<Rule> {
    Box::new(Rule::Requirement(RequirementRule { name: name.to_string(), status, content }))
}

fn count_node(count: usize, status: RuleStatus, items: Vec<Box<Rule>>) -> CountRule {
    CountRule {
        count,
        audit_status: RuleStatus::Empty,
        audit: vec![],
        items,
        max_rank: "2".to_string(),
        path: Path(vec!["$".to_string(), "result".to_string()]),
        rank: "1".to_string(),
        status,
    }
}

#[test]
fn rollup_two_passing_threshold_one_passes() {
    let node = count_node(
        1,
        RuleStatus::Pass,
        vec![
            req_leaf("A", RuleStatus::Pass, vec![]),
            req_leaf("B", RuleStatus::Pass, vec![]),
        ],
    );
    assert_eq!(node.computed_status(), RuleStatus::Pass);
}

#[test]
fn rollup_none_passing_threshold_two_fails() {
    let node = count_node(
        2,
        RuleStatus::Fail,
        vec![
            req_leaf("A", RuleStatus::Fail, vec![]),
            req_leaf("B", RuleStatus::Empty, vec![]),
            req_leaf("C", RuleStatus::Fail, vec![]),
        ],
    );
    assert_eq!(node.computed_status(), RuleStatus::Fail);
}

#[test]
fn rollup_waiver_counts_toward_threshold() {
    let node = count_node(
        2,
        RuleStatus::Pass,
        vec![
            req_leaf("A", RuleStatus::Waived, vec![]),
            req_leaf("B", RuleStatus::Pass, vec![]),
            req_leaf("C", RuleStatus::Fail, vec![]),
        ],
    );
    assert_eq!(node.computed_status(), RuleStatus::Pass);
}

#[test]
fn rollup_audit_override_waives_outright() {
    let mut node = count_node(2, RuleStatus::Waived, vec![req_leaf("A", RuleStatus::Fail, vec![])]);
    node.audit_status = RuleStatus::Waived;
    assert_eq!(node.computed_status(), RuleStatus::Waived);
}

#[test]
fn waived_parent_reports_waived_child_rows() {
    // a child row with empty content under a waived parent is Waived, not
    // Fail or Empty
    let leaf = RequirementRule {
        name: "Core".to_string(),
        status: RuleStatus::Fail,
        content: vec![],
    };
    let rows = leaf.get_row(&student(vec![]), &RecordOptions { show_paths: false }, true);
    assert_eq!(rows.len(), 1);
    assert_eq!(rows[0].status, RuleStatus::Waived);
    assert!(rows[0].content.is_empty());
}

#[test]
fn threshold_one_reports_first_passing_child_as_waived() {
    let node = count_node(
        1,
        RuleStatus::Pass,
        vec![
            req_leaf("A", RuleStatus::Fail, vec![]),
            req_leaf("B", RuleStatus::Pass, vec!["CS 121".to_string()]),
        ],
    );
    let rows = node.get_row(&student(vec![]), &RecordOptions { show_paths: false }, false);
    assert_eq!(rows.len(), 1);
    assert_eq!(rows[0].title, "1 of these");
    assert_eq!(rows[0].status, RuleStatus::Waived);
    assert_eq!(rows[0].content, vec!["CS 121".to_string()]);
}

#[test]
fn threshold_one_without_passing_child_reports_empty() {
    let node = count_node(1, RuleStatus::Fail, vec![req_leaf("A", RuleStatus::Fail, vec![])]);
    let rows = node.get_row(&student(vec![]), &RecordOptions { show_paths: false }, false);
    assert_eq!(rows.len(), 1);
    assert_eq!(rows[0].status, RuleStatus::Empty);
    assert!(rows[0].content.is_empty());

    let waived = count_node(1, RuleStatus::Waived, vec![req_leaf("A", RuleStatus::Fail, vec![])]);
    let rows = waived.get_row(&student(vec![]), &RecordOptions { show_paths: false }, false);
    assert_eq!(rows[0].status, RuleStatus::Waived);
}

#[test]
fn mixed_children_rows_carry_position_prefixes() {
    let node = count_node(
        2,
        RuleStatus::Fail,
        vec![
            Box::new(Rule::Course(degreepath_auditor::rule::CourseRule {
                course: "CS 121".to_string(),
                status: RuleStatus::Pass,
                content: vec!["CS 121".to_string()],
            })),
            req_leaf("B", RuleStatus::Fail, vec!["x".to_string()]),
        ],
    );
    let rows = node.get_row(&student(vec![]), &RecordOptions { show_paths: false }, false);
    assert_eq!(rows.len(), 2);
    assert_eq!(rows[0].title, "#1 -> CS 121");
    assert_eq!(rows[0].status, RuleStatus::Pass);
    assert_eq!(rows[1].title, "#2 -> B");
    assert_eq!(rows[1].status, RuleStatus::Fail);
}

#[test]
fn uniform_requirement_rows_reclassify_empties() {
    let node = count_node(
        2,
        RuleStatus::Fail,
        vec![
            req_leaf("A", RuleStatus::Waived, vec!["x".to_string()]),
            req_leaf("B", RuleStatus::Pass, vec![]),
        ],
    );
    let rows = node.get_row(&student(vec![]), &RecordOptions { show_paths: false }, false);
    assert_eq!(rows.len(), 2);
    assert_eq!(rows[0].title, "A");
    assert_eq!(rows[0].status, RuleStatus::Waived);
    assert!(rows[0].content.is_empty());
    assert_eq!(rows[1].title, "B");
    assert_eq!(rows[1].status, RuleStatus::Empty);
}

#[test]
fn count_prose_shows_threshold_and_tally() {
    let node = count_node(
        1,
        RuleStatus::Pass,
        vec![
            req_leaf("A", RuleStatus::Pass, vec![]),
            req_leaf("B", RuleStatus::Fail, vec![]),
        ],
    );
    let options = ProseOptions { show_paths: false, show_ranks: false };
    let text: String = node
        .to_prose(&student(vec![]), &options, 0)
        .into_iter()
        .collect();
    assert_eq!(
        text,
        "status: Pass\neither of (these 2) (ok: 1, need: 1)\n    1.\n        requirement: A\n        status: Pass\n    2.\n        requirement: B\n        status: Fail\n"
    );
}

#[test]
fn course_labels() {
    let c = course("CS", "121", "2019-1", 100, "1.00");
    assert_eq!(c.course_with_term(), "CS 121 2019-2019-1");
    assert_eq!(c.semi_verbose(), "CS 121 2019-2019-1");
    assert_eq!(
        c.verbose(),
        "CS 121 2019-2019-1 \"CS 121\" 1.00 \"B+\" #ClassLabId(\"CS-121-2019-1\")"
    );
    assert_eq!(c.calculate_symbol(&RuleStatus::Waived), "[ovr]");
    assert_eq!(c.calculate_symbol(&RuleStatus::Pass), "[ ok]");
}

#[test]
fn transfer_courses_show_their_institution() {
    let mut c = course("CS", "121", "2019-1", 100, "1.00");
    c.institution_short = "CARLETON".to_string();
    assert_eq!(c.semi_verbose(), "[CARLETON] CS 121 2019-2019-1");
}

#[test]
fn lab_sections_carry_their_suffix() {
    let mut c = course("CH", "126", "2019-1", 100, "1.00");
    c.sub_type = "lab".to_string();
    c.section = Some("A".to_string());
    assert_eq!(c.course_with_term(), "CH 126A.L 2019-2019-1");
}

#[test]
fn get_class_by_clbid_finds_the_enrollment() {
    let a = course("CS", "121", "2019-1", 100, "1.00");
    let b = course("CS", "251", "2019-2", 200, "1.00");
    let s = student(vec![a, b]);
    let found = s.get_class_by_clbid(&ClassLabId("CS-251-2019-2".to_string()));
    assert_eq!(found.unwrap().subject, "CS");
    assert_eq!(found.unwrap().number, "251");
    assert!(s.get_class_by_clbid(&ClassLabId("none".to_string())).is_none());
}

#[test]
fn given_count_over_filtered_courses() {
    let pool = vec![
        course("CS", "121", "Interim", 100, "1.00"),
        course("CS", "251", "Interim", 200, "1.00"),
        course("ART", "102", "Fall", 100, "1.00"),
    ];
    let pairs = vec![("semester".to_string(), "Interim".to_string())];
    let filter = degreepath_auditor::filter::parse_clause(&pairs).unwrap();
    let rule = GivenRule {
        given: Given::AllCourses { what: GivenCoursesWhatOptions::Courses },
        filter: Some(filter),
        action: "count >= 2".parse::<Action>().unwrap(),
    };
    assert_eq!(rule.evaluate(&pool), RuleStatus::Pass);

    let rule = GivenRule {
        given: Given::AllCourses { what: GivenCoursesWhatOptions::Courses },
        filter: Some(degreepath_auditor::filter::parse_clause(&pairs).unwrap()),
        action: "count >= 3".parse::<Action>().unwrap(),
    };
    assert_eq!(rule.evaluate(&pool), RuleStatus::Fail);
}

#[test]
fn given_sum_of_credits() {
    let pool = vec![
        course("CS", "121", "Interim", 100, "1.00"),
        course("CS", "251", "Interim", 200, "0.25"),
    ];
    let rule = GivenRule {
        given: Given::AllCourses { what: GivenCoursesWhatOptions::Credits },
        filter: None,
        action: "sum >= 1.25".parse::<Action>().unwrap(),
    };
    assert_eq!(rule.evaluate(&pool), RuleStatus::Pass);

    let rule = GivenRule {
        given: Given::AllCourses { what: GivenCoursesWhatOptions::Credits },
        filter: None,
        action: "sum >= 1.5".parse::<Action>().unwrap(),
    };
    assert_eq!(rule.evaluate(&pool), RuleStatus::Fail);
}

#[test]
fn has_save_rule_scans_descendants() {
    let saved = ParsedRule::Given(GivenRule {
        given: Given::NamedVariable {
            save: "Interim Courses".to_string(),
            what: GivenCoursesWhatOptions::Courses,
        },
        filter: None,
        action: "count >= 3".parse::<Action>().unwrap(),
    });
    let plain = ParsedRule::Course(degreepath_auditor::rules::CourseRule {
        course: "CS 121".to_string(),
    });
    let tree = ParsedRule::Both(both::Rule { both: (Box::new(plain), Box::new(saved)) });
    assert!(tree.has_save_rule());

    let no_saves = ParsedRule::CountOf(CountOfRule {
        count: 1,
        of: vec![
            ParsedRule::Course(degreepath_auditor::rules::CourseRule { course: "A".to_string() }),
        ],
    });
    assert!(!no_saves.has_save_rule());
}
