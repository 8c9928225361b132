//! The evaluated rule tree the audit formatter walks: each node carries its
//! computed status, and the tree renders either as indented prose or as a
//! flat ordered sequence of labeled rows.

use vstd::prelude::*;

pub mod count;

use count::CountRule;

verus! {

/// The status a rule settles to after evaluation.
#[derive(Debug, PartialEq, Eq, Structural, Clone, Copy, Hash)]
pub enum RuleStatus {
    /// Satisfied by the transcript.
    Pass,
    /// Not yet satisfied.
    Fail,
    /// Manually overridden.
    Waived,
    /// No matching data and not otherwise waived.
    Empty,
    /// Satisfied only by courses still in progress.
    InProgress,
}

/// A row's status carries the same vocabulary.
pub type RecordStatus = RuleStatus;

impl RuleStatus {
    /// Passing for threshold purposes: a pass or a waiver.
    pub open spec fn is_passing_spec(self) -> bool {
        self == RuleStatus::Pass || self == RuleStatus::Waived
    }

    /// Executable passing check.
    pub fn is_passing(&self) -> (r: bool)
        ensures
            r == self.is_passing_spec(),
    {
        matches!(self, RuleStatus::Pass | RuleStatus::Waived)
    }

    /// Whether this status is a waiver.
    pub open spec fn is_waived_spec(self) -> bool {
        self == RuleStatus::Waived
    }

    /// Executable waiver check.
    pub fn is_waived(&self) -> (r: bool)
        ensures
            r == self.is_waived_spec(),
    {
        matches!(self, RuleStatus::Waived)
    }

    /// The status's name.
    pub open spec fn label_spec(self) -> Seq<char> {
        match self {
            RuleStatus::Pass => "Pass"@,
            RuleStatus::Fail => "Fail"@,
            RuleStatus::Waived => "Waived"@,
            RuleStatus::Empty => "Empty"@,
            RuleStatus::InProgress => "InProgress"@,
        }
    }

    /// Appends the status's name.
    pub fn push_label(&self, out: &mut Vec<char>)
        ensures
            final(out)@ == old(out)@ + self.label_spec(),
    {
        let w: &str = match self {
            RuleStatus::Pass => "Pass",
            RuleStatus::Fail => "Fail",
            RuleStatus::Waived => "Waived",
            RuleStatus::Empty => "Empty",
            RuleStatus::InProgress => "InProgress",
        };
        let mut c = crate::text::chars_of(w);
        out.append(&mut c);
    }
}

/// Where a rule stands in its document, as the names from the root down.
#[derive(Debug, PartialEq, Clone)]
pub struct Path(pub Vec<String>);

impl Path {
    /// The path's segments.
    pub open spec fn view_segments(&self) -> Seq<Seq<char>> {
        self.0.deep_view()
    }

    /// The path's text: its segments joined with periods.
    pub fn to_text(&self) -> (r: String)
        ensures
            r@ == crate::text::join_sep(self.0.deep_view(), "."@),
    {
        let dot = ['.'];
        let lists = crate::rules::print::strings_to_char_lists(&self.0);
        let out = crate::text::join_with(&lists, &dot);
        proof {
            assert(dot@ =~= "."@) by {
                reveal_strlit(".");
            }
        }
        crate::text::string_of(&out)
    }
}

/// One row of the tabular audit: a title, an optional subtitle, a status
/// tag, and an opaque content list for the presenter.
#[derive(Debug, PartialEq, Clone)]
pub struct Record {
    pub title: String,
    pub subtitle: Option<String>,
    pub status: RecordStatus,
    pub content: Vec<String>,
}

/// The mathematical shape of a [`Record`].
pub struct RecordView {
    pub title: Seq<char>,
    pub subtitle: Option<Seq<char>>,
    pub status: RecordStatus,
    pub content: Seq<Seq<char>>,
}

impl View for Record {
    type V = RecordView;

    open spec fn view(&self) -> RecordView {
        RecordView {
            title: self.title@,
            subtitle: match self.subtitle {
                Some(s) => Some(s@),
                None => None,
            },
            status: self.status,
            content: self.content.deep_view(),
        }
    }
}

impl DeepView for Record {
    type V = RecordView;

    open spec fn deep_view(&self) -> RecordView {
        self.view()
    }
}

/// One entry of a post-hoc departmental audit.
#[derive(Debug, PartialEq, Clone)]
pub struct AuditResult {
    pub status: RuleStatus,
    pub message: String,
}

/// Toggles the prose renderer recognizes; a toggle left off omits its
/// annotation.
#[derive(Debug, PartialEq, Eq, Structural, Clone, Copy)]
pub struct ProseOptions {
    pub show_paths: bool,
    pub show_ranks: bool,
}

/// Toggles the record renderer recognizes.
#[derive(Debug, PartialEq, Eq, Structural, Clone, Copy)]
pub struct RecordOptions {
    pub show_paths: bool,
}

/// An evaluated requirement leaf: a named requirement with its settled
/// status and the content rows it contributes.
#[derive(Debug, PartialEq, Clone)]
pub struct RequirementRule {
    pub name: String,
    pub status: RuleStatus,
    pub content: Vec<String>,
}

/// An evaluated course leaf.
#[derive(Debug, PartialEq, Clone)]
pub struct CourseRule {
    pub course: String,
    pub status: RuleStatus,
    pub content: Vec<String>,
}

/// An evaluated rule.
#[derive(Debug)]
pub enum Rule {
    Count(CountRule),
    Requirement(RequirementRule),
    Course(CourseRule),
}

impl Rule {
    /// The rule's settled status.
    pub open spec fn status_spec(self) -> RuleStatus {
        match self {
            Rule::Count(c) => c.status,
            Rule::Requirement(q) => q.status,
            Rule::Course(c) => c.status,
        }
    }

    /// The rule's settled status.
    pub fn status(&self) -> (r: &RuleStatus)
        ensures
            *r == self.status_spec(),
    {
        match self {
            Rule::Count(c) => &c.status,
            Rule::Requirement(q) => &q.status,
            Rule::Course(c) => &c.status,
        }
    }
}

} // verus!

verus! {

impl RequirementRule {
    /// The single row a requirement leaf reports: an inherited or own
    /// waiver shows as Waived with no content, empty content as Empty, and
    /// anything else keeps the leaf's own status and content.
    pub open spec fn row_spec(self, is_waived: bool) -> RecordView {
        if is_waived || self.status == RuleStatus::Waived {
            RecordView {
                title: self.name@,
                subtitle: None,
                status: RuleStatus::Waived,
                content: Seq::empty(),
            }
        } else if self.content.deep_view().len() == 0 {
            RecordView {
                title: self.name@,
                subtitle: None,
                status: RuleStatus::Empty,
                content: Seq::empty(),
            }
        } else {
            RecordView {
                title: self.name@,
                subtitle: None,
                status: self.status,
                content: self.content.deep_view(),
            }
        }
    }

    /// Reports this leaf's row (see [`Self::row_spec`]).
    pub fn get_row(
        &self,
        student: &crate::student::Student,
        options: &RecordOptions,
        is_waived: bool,
    ) -> (r: Vec<Record>)
        ensures
            r.deep_view() =~= seq![self.row_spec(is_waived)],
    {
        let status: RuleStatus = if is_waived || matches!(self.status, RuleStatus::Waived) {
            RuleStatus::Waived
        } else if self.content.len() == 0 {
            RuleStatus::Empty
        } else {
            self.status
        };
        let content: Vec<String> = if is_waived || matches!(self.status, RuleStatus::Waived)
            || self.content.len() == 0 {
            Vec::new()
        } else {
            self.content.clone()
        };
        let mut r: Vec<Record> = Vec::new();
        r.push(Record { title: self.name.clone(), subtitle: None, status, content });
        proof {
            if self.content@.len() == 0 {
                assert(self.content.deep_view().len() == 0);
            } else {
                assert(self.content.deep_view().len() == self.content@.len());
            }
            assert(r@[0]@.content =~= self.row_spec(is_waived).content);
        }
        r
    }
}

impl CourseRule {
    /// The single row a course leaf reports, mirroring the requirement
    /// leaf's waiver and emptiness handling.
    pub open spec fn row_spec(self, is_waived: bool) -> RecordView {
        if is_waived || self.status == RuleStatus::Waived {
            RecordView {
                title: self.course@,
                subtitle: None,
                status: RuleStatus::Waived,
                content: Seq::empty(),
            }
        } else if self.content.deep_view().len() == 0 {
            RecordView {
                title: self.course@,
                subtitle: None,
                status: RuleStatus::Empty,
                content: Seq::empty(),
            }
        } else {
            RecordView {
                title: self.course@,
                subtitle: None,
                status: self.status,
                content: self.content.deep_view(),
            }
        }
    }

    /// Reports this leaf's row (see [`Self::row_spec`]).
    pub fn get_row(
        &self,
        student: &crate::student::Student,
        options: &RecordOptions,
        is_waived: bool,
    ) -> (r: Vec<Record>)
        ensures
            r.deep_view() =~= seq![self.row_spec(is_waived)],
    {
        let status: RuleStatus = if is_waived || matches!(self.status, RuleStatus::Waived) {
            RuleStatus::Waived
        } else if self.content.len() == 0 {
            RuleStatus::Empty
        } else {
            self.status
        };
        let content: Vec<String> = if is_waived || matches!(self.status, RuleStatus::Waived)
            || self.content.len() == 0 {
            Vec::new()
        } else {
            self.content.clone()
        };
        let mut r: Vec<Record> = Vec::new();
        r.push(Record { title: self.course.clone(), subtitle: None, status, content });
        proof {
            if self.content@.len() == 0 {
                assert(self.content.deep_view().len() == 0);
            } else {
                assert(self.content.deep_view().len() == self.content@.len());
            }
            assert(r@[0]@.content =~= self.row_spec(is_waived).content);
        }
        r
    }
}

/// The size of an evaluated rule tree.
pub open spec fn fmt_rule_size(r: Rule) -> nat
    decreases r,
{
    match r {
        Rule::Count(c) => 1 + fmt_rules_size(c.items@),
        Rule::Requirement(_) => 1,
        Rule::Course(_) => 1,
    }
}

/// The size of a sequence of evaluated rule trees.
pub open spec fn fmt_rules_size(l: Seq<Box<Rule>>) -> nat
    decreases l,
{
    if l.len() == 0 {
        0
    } else {
        1 + fmt_rule_size(*l[0]) + fmt_rules_size(l.drop_first())
    }
}

pub proof fn lemma_fmt_rules_size_element(l: Seq<Box<Rule>>, i: int)
    requires
        0 <= i < l.len(),
    ensures
        fmt_rule_size(*l[i]) < fmt_rules_size(l),
    decreases i,
{
    if i == 0 {
    } else {
        assert(l.drop_first()[i - 1] == l[i]);
        lemma_fmt_rules_size_element(l.drop_first(), i - 1);
    }
}

/// The rows an evaluated rule reports.
pub open spec fn rule_rows_spec(r: Rule, is_waived: bool) -> Seq<RecordView>
    decreases fmt_rule_size(r), 0nat,
{
    match r {
        Rule::Count(c) => count::count_rows_spec(c, is_waived),
        Rule::Requirement(q) => seq![q.row_spec(is_waived)],
        Rule::Course(c) => seq![c.row_spec(is_waived)],
    }
}

impl Rule {
    /// Reports this rule's rows (see [`rule_rows_spec`]).
    pub fn get_row(
        &self,
        student: &crate::student::Student,
        options: &RecordOptions,
        is_waived: bool,
    ) -> (r: Vec<Record>)
        ensures
            r.deep_view() == rule_rows_spec(*self, is_waived),
        decreases fmt_rule_size(*self), 0nat,
    {
        match self {
            Rule::Count(c) => c.get_row(student, options, is_waived),
            Rule::Requirement(q) => q.get_row(student, options, is_waived),
            Rule::Course(c) => c.get_row(student, options, is_waived),
        }
    }
}

} // verus!
