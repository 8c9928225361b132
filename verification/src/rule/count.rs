//! The evaluated count rule: at least `count` of its children must pass.
//! Carries an independent post-hoc audit beside the rolled-up child status,
//! renders as indented prose, and flattens into labeled audit rows with
//! top-down waiver propagation.

use vstd::prelude::*;

use super::{AuditResult, Path, Record, RecordStatus, RuleStatus, Rule};

verus! {

/// An evaluated at-least-`count`-of-these rule.
#[derive(Debug)]
pub struct CountRule {
    pub count: usize,
    pub audit_status: RuleStatus,
    pub audit: Vec<AuditResult>,
    pub items: Vec<Box<Rule>>,
    pub max_rank: String,
    pub path: Path,
    pub rank: String,
    pub status: RuleStatus,
}

/// How many of the rules pass (a waiver counts as passing).
pub open spec fn count_passing(l: Seq<Box<Rule>>) -> int
    decreases l,
{
    if l.len() == 0 {
        0
    } else {
        (if l[0].status_spec().is_passing_spec() {
            1int
        } else {
            0int
        }) + count_passing(l.drop_first())
    }
}

pub proof fn lemma_count_passing_bounds(l: Seq<Box<Rule>>)
    ensures
        0 <= count_passing(l) <= l.len(),
    decreases l,
{
    if l.len() > 0 {
        lemma_count_passing_bounds(l.drop_first());
    }
}

proof fn lemma_count_passing_snoc(l: Seq<Box<Rule>>, r: Box<Rule>)
    ensures
        count_passing(l.push(r)) == count_passing(l) + (if r.status_spec().is_passing_spec() {
            1int
        } else {
            0int
        }),
    decreases l.len(),
{
    if l.len() == 0 {
        assert(l.push(r)[0] == r);
        assert(l.push(r).drop_first() =~= Seq::<Box<Rule>>::empty());
        assert(count_passing(Seq::<Box<Rule>>::empty()) == 0);
        assert(count_passing(l) == 0);
    } else {
        assert(l.push(r)[0] == l[0]);
        assert(l.push(r).drop_first() =~= l.drop_first().push(r));
        lemma_count_passing_snoc(l.drop_first(), r);
    }
}

impl CountRule {
    /// True when every child is a requirement leaf.
    pub fn all_items_are_requirements(&self) -> (r: bool)
        ensures
            r == forall|i: int| 0 <= i < self.items@.len() ==> (*#[trigger] self.items@[i]) is Requirement,
    {
        let mut i: usize = 0;
        while i < self.items.len()
            invariant
                i <= self.items@.len(),
                forall|k: int| 0 <= k < i ==> (*#[trigger] self.items@[k]) is Requirement,
            decreases self.items@.len() - i,
        {
            match &*self.items[i] {
                Rule::Requirement(_) => {},
                _ => {
                    return false;
                },
            }
            i += 1;
        }
        true
    }

    /// How many children currently pass.
    pub fn passing_count(&self) -> (r: usize)
        ensures
            r == count_passing(self.items@),
            r <= self.items@.len(),
    {
        proof {
            lemma_count_passing_bounds(self.items@);
        }
        let mut n: usize = 0;
        let mut i: usize = 0;
        proof {
            assert(self.items@.take(0int) =~= Seq::<Box<Rule>>::empty());
            assert(count_passing(self.items@.take(0int)) == 0);
        }
        while i < self.items.len()
            invariant
                i <= self.items@.len(),
                n <= i,
                n == count_passing(self.items@.take(i as int)),
            decreases self.items@.len() - i,
        {
            proof {
                assert(self.items@.take(i + 1) =~= self.items@.take(i as int).push(self.items@[
                    i as int]));
                lemma_count_passing_snoc(self.items@.take(i as int), self.items@[i as int]);
                lemma_count_passing_bounds(self.items@.take(i as int));
            }
            if self.items[i].status().is_passing() {
                n += 1;
            }
            i += 1;
        }
        proof {
            assert(self.items@.take(self.items@.len() as int) =~= self.items@);
        }
        n
    }

    /// The status the children roll up to: enough passing children make the
    /// node pass, else it fails — unless the node's own audit override has
    /// waived it outright. The post-hoc audit status itself is carried
    /// separately and never silently replaces this computed result.
    pub open spec fn rollup_spec(&self) -> RuleStatus {
        if self.audit_status == RuleStatus::Waived {
            RuleStatus::Waived
        } else if count_passing(self.items@) >= self.count {
            RuleStatus::Pass
        } else {
            RuleStatus::Fail
        }
    }

    /// Rolls the children's statuses up (see [`rollup_spec`]).
    pub fn computed_status(&self) -> (r: RuleStatus)
        ensures
            r == self.rollup_spec(),
    {
        if matches!(self.audit_status, RuleStatus::Waived) {
            RuleStatus::Waived
        } else {
            let n = self.passing_count();
            if n >= self.count {
                RuleStatus::Pass
            } else {
                RuleStatus::Fail
            }
        }
    }
}

} // verus!

verus! {

use super::{fmt_rule_size, fmt_rules_size, lemma_fmt_rules_size_element, rule_rows_spec, RecordView};

/// Every item is a requirement leaf.
pub open spec fn all_requirements_spec(l: Seq<Box<Rule>>) -> bool {
    forall|i: int| 0 <= i < l.len() ==> (*#[trigger] l[i]) is Requirement
}

/// The position of the first passing item, if any.
pub open spec fn first_passing(l: Seq<Box<Rule>>) -> Option<int>
    decreases l,
{
    if l.len() == 0 {
        None
    } else if l[0].status_spec().is_passing_spec() {
        Some(0int)
    } else {
        match first_passing(l.drop_first()) {
            Some(i) => Some(i + 1),
            None => None,
        }
    }
}

pub proof fn lemma_first_passing(l: Seq<Box<Rule>>)
    ensures
        (match first_passing(l) {
            Some(i) => 0 <= i < l.len() && l[i].status_spec().is_passing_spec() && forall|k: int|
                0 <= k < i ==> !(#[trigger] l[k]).status_spec().is_passing_spec(),
            None => forall|k: int|
                0 <= k < l.len() ==> !(#[trigger] l[k]).status_spec().is_passing_spec(),
        }),
    decreases l.len(),
{
    if l.len() > 0 && !l[0].status_spec().is_passing_spec() {
        lemma_first_passing(l.drop_first());
        match first_passing(l.drop_first()) {
            Some(i) => {
                assert(l.drop_first()[i] == l[i + 1]);
                assert forall|k: int| 0 <= k < i + 1 implies !(
                #[trigger] l[k]).status_spec().is_passing_spec() by {
                    if k > 0 {
                        assert(l.drop_first()[k - 1] == l[k]);
                    }
                }
            },
            None => {
                assert forall|k: int| 0 <= k < l.len() implies !(
                #[trigger] l[k]).status_spec().is_passing_spec() by {
                    if k > 0 {
                        assert(l.drop_first()[k - 1] == l[k]);
                    }
                }
            },
        }
    }
}

/// A sub-row re-titled under the `1 of these` heading and reclassified as
/// waived.
pub open spec fn retitle_one(sub: RecordView) -> RecordView {
    RecordView {
        title: "1 of these"@,
        subtitle: None,
        status: RuleStatus::Waived,
        content: sub.content,
    }
}

/// A sub-row as a non-threshold-one count node re-reports it: with a
/// position prefix when children are of mixed kinds; else reclassified by
/// the child's own waiver and the sub-row's emptiness.
pub open spec fn sub_map(
    sub: RecordView,
    idx: int,
    item_status: RuleStatus,
    show_prefix: bool,
) -> RecordView {
    if show_prefix {
        RecordView {
            title: seq!['#'] + crate::text::u64_digits(idx) + " -> "@ + sub.title,
            subtitle: sub.subtitle,
            status: item_status,
            content: sub.content,
        }
    } else if item_status == RuleStatus::Waived {
        RecordView {
            title: sub.title,
            subtitle: sub.subtitle,
            status: RuleStatus::Waived,
            content: Seq::empty(),
        }
    } else if sub.content.len() == 0 {
        RecordView {
            title: sub.title,
            subtitle: sub.subtitle,
            status: RuleStatus::Empty,
            content: Seq::empty(),
        }
    } else {
        RecordView {
            title: sub.title,
            subtitle: sub.subtitle,
            status: item_status,
            content: sub.content,
        }
    }
}

/// A sequence of sub-rows re-titled under the `1 of these` heading.
pub open spec fn retitle_rows(subs: Seq<RecordView>) -> Seq<RecordView> {
    subs.map_values(|s: RecordView| retitle_one(s))
}

/// A sequence of sub-rows re-reported through [`sub_map`].
pub open spec fn mapped_rows(
    subs: Seq<RecordView>,
    idx: int,
    item_status: RuleStatus,
    show_prefix: bool,
) -> Seq<RecordView> {
    subs.map_values(|s: RecordView| sub_map(s, idx, item_status, show_prefix))
}

/// The rows of the items from position `idx` on, each item's sub-rows
/// re-reported through [`sub_map`].
pub open spec fn items_rows_spec(
    l: Seq<Box<Rule>>,
    idx: int,
    show_prefix: bool,
    is_waived: bool,
) -> Seq<RecordView>
    decreases fmt_rules_size(l), 1nat,
    via items_rows_spec_decreases
{
    if l.len() == 0 {
        Seq::empty()
    } else {
        mapped_rows(rule_rows_spec(*l[0], is_waived), idx, l[0].status_spec(), show_prefix)
            + items_rows_spec(l.drop_first(), idx + 1, show_prefix, is_waived)
    }
}

#[via_fn]
proof fn items_rows_spec_decreases(l: Seq<Box<Rule>>, idx: int, show_prefix: bool, is_waived: bool) {
    if l.len() > 0 {
        lemma_fmt_rules_size_element(l, 0);
    }
}

/// An empty row under the `1 of these` heading.
pub open spec fn empty_one_row(status: RuleStatus) -> RecordView {
    RecordView { title: "1 of these"@, subtitle: None, status, content: Seq::empty() }
}

/// The rows a count node reports. The inherited waiver is the or of the
/// ancestors' flag and this node's own waived status, passed down to every
/// child. A threshold-one node reports the first passing child's rows
/// re-titled `1 of these` and reclassified as waived, or one empty row —
/// waived when the node is, else empty. Any other node re-reports each
/// child's rows through [`sub_map`], with position prefixes exactly when
/// the children are not all requirement leaves.
pub open spec fn count_rows_spec(c: CountRule, is_waived: bool) -> Seq<RecordView>
    decreases fmt_rules_size(c.items@), 2nat,
    via count_rows_spec_decreases
{
    let w = is_waived || c.status == RuleStatus::Waived;
    let show_prefix = !all_requirements_spec(c.items@);
    if c.count == 1 {
        match first_passing(c.items@) {
            Some(i) => retitle_rows(rule_rows_spec(*c.items@[i], w)),
            None => {
                if w {
                    seq![empty_one_row(RuleStatus::Waived)]
                } else {
                    seq![empty_one_row(RuleStatus::Empty)]
                }
            },
        }
    } else {
        items_rows_spec(c.items@, 1, show_prefix, w)
    }
}

#[via_fn]
proof fn count_rows_spec_decreases(c: CountRule, is_waived: bool) {
    lemma_first_passing(c.items@);
    match first_passing(c.items@) {
        Some(i) => {
            lemma_fmt_rules_size_element(c.items@, i);
        },
        None => {},
    }
}

} // verus!

verus! {

/// A like-for-like copy of a string list.
pub(crate) fn clone_strings(v: &Vec<String>) -> (r: Vec<String>)
    ensures
        r.deep_view() == v.deep_view(),
        r@.len() == v@.len(),
{
    let mut r: Vec<String> = Vec::new();
    let mut i: usize = 0;
    proof {
        assert(r.deep_view() =~= v.deep_view().take(0int));
    }
    while i < v.len()
        invariant
            i <= v@.len(),
            v.deep_view().len() == v@.len(),
            r@.len() == i,
            r.deep_view() == v.deep_view().take(i as int),
        decreases v@.len() - i,
    {
        let s = v[i].clone();
        let ghost pre = r.deep_view();
        let ghost pre_shallow = r@;
        r.push(s);
        proof {
            assert forall|j: int| 0 <= j < r@.len() implies r.deep_view()[j] == v.deep_view().take(
                i + 1,
            )[j] by {
                if j < pre_shallow.len() {
                    assert(r@[j] == pre_shallow[j]);
                    assert(pre_shallow[j].deep_view() == pre[j]);
                } else {
                    assert(r@[j]@ == v@[i as int]@);
                }
            }
            assert(r.deep_view() =~= v.deep_view().take(i + 1));
        }
        i += 1;
    }
    proof {
        assert(v.deep_view().take(v@.len() as int) =~= v.deep_view());
    }
    r
}

proof fn lemma_first_passing_at(l: Seq<Box<Rule>>, i: int)
    requires
        0 <= i < l.len(),
        l[i].status_spec().is_passing_spec(),
        forall|k: int| 0 <= k < i ==> !(#[trigger] l[k]).status_spec().is_passing_spec(),
    ensures
        first_passing(l) == Some(i),
    decreases i,
{
    if i > 0 {
        assert(l.drop_first()[i - 1] == l[i]);
        assert forall|k: int|
            0 <= k < i - 1 implies !(#[trigger] l.drop_first()[k]).status_spec().is_passing_spec() by {
            assert(l.drop_first()[k] == l[k + 1]);
        }
        lemma_first_passing_at(l.drop_first(), i - 1);
    }
}

proof fn lemma_first_passing_none(l: Seq<Box<Rule>>)
    requires
        forall|k: int| 0 <= k < l.len() ==> !(#[trigger] l[k]).status_spec().is_passing_spec(),
    ensures
        first_passing(l) is None,
    decreases l.len(),
{
    if l.len() > 0 {
        assert forall|k: int|
            0 <= k < l.drop_first().len() implies !(
        #[trigger] l.drop_first()[k]).status_spec().is_passing_spec() by {
            assert(l.drop_first()[k] == l[k + 1]);
        }
        lemma_first_passing_none(l.drop_first());
    }
}

impl CountRule {
    /// Reports this count node's rows (see [`count_rows_spec`]).
    pub fn get_row(
        &self,
        student: &crate::student::Student,
        options: &super::RecordOptions,
        is_waived: bool,
    ) -> (r: Vec<Record>)
        ensures
            r.deep_view() == count_rows_spec(*self, is_waived),
        decreases fmt_rules_size(self.items@), 2nat,
    {
        let w = is_waived || matches!(self.status, RuleStatus::Waived);
        let show_prefix = !self.all_items_are_requirements();
        let mut rows: Vec<Record> = Vec::new();
        if self.count == 1 {
            let mut i: usize = 0;
            while i < self.items.len()
                invariant
                    i <= self.items@.len(),
                    self.count == 1,
                    rows@.len() == 0,
                    w == (is_waived || self.status == RuleStatus::Waived),
                    forall|k: int|
                        0 <= k < i ==> !(
                        #[trigger] self.items@[k]).status_spec().is_passing_spec(),
                decreases self.items@.len() - i,
            {
                if self.items[i].status().is_passing() {
                    proof {
                        lemma_first_passing_at(self.items@, i as int);
                        lemma_fmt_rules_size_element(self.items@, i as int);
                    }
                    let subs = self.items[i].get_row(student, options, w);
                    let ghost subviews = rule_rows_spec(*self.items@[i as int], w);
                    let mut k: usize = 0;
                    proof {
                        assert(rows.deep_view() =~= retitle_rows(subviews.take(0int)));
                    }
                    while k < subs.len()
                        invariant
                            k <= subs@.len(),
                            subs.deep_view() == subviews,
                            subviews.len() == subs@.len(),
                            rows.deep_view() == retitle_rows(subviews.take(k as int)),
                        decreases subs@.len() - k,
                    {
                        let title: String = {
                            let t = crate::text::chars_of("1 of these");
                            crate::text::string_of(&t)
                        };
                        let content = clone_strings(&subs[k].content);
                        let ghost pre = rows.deep_view();
                        let ghost pre_shallow = rows@;
                        proof {
                            assert(rows.deep_view() == Seq::new(
                                rows@.len(),
                                |q: int| rows@[q].deep_view(),
                            ));
                            assert(rows.deep_view().len() == k);
                            assert(pre_shallow.len() == k);
                        }
                        rows.push(
                            Record { title, subtitle: None, status: RuleStatus::Waived, content },
                        );
                        proof {
                            assert(subs@[k as int]@ == subviews[k as int]);
                            assert forall|j: int| 0 <= j < rows@.len() implies rows.deep_view()[j]
                                == retitle_rows(subviews.take(k + 1))[j] by {
                                assert(retitle_rows(subviews.take(k + 1))[j] == retitle_one(
                                    subviews.take(k + 1)[j],
                                ));
                                if j < pre_shallow.len() {
                                    assert(rows@[j] == pre_shallow[j]);
                                    assert(pre_shallow[j].deep_view() == pre[j]);
                                    assert(pre[j] == retitle_rows(subviews.take(k as int))[j]);
                                    assert(retitle_rows(subviews.take(k as int))[j] == retitle_one(
                                        subviews.take(k as int)[j],
                                    ));
                                } else {
                                    assert(rows@[j]@.content =~= retitle_one(
                                        subviews[k as int],
                                    ).content);
                                    assert(rows@[j]@.title =~= retitle_one(
                                        subviews[k as int],
                                    ).title);
                                }
                            }
                            assert(rows.deep_view() =~= retitle_rows(subviews.take(k + 1)));
                        }
                        k += 1;
                    }
                    proof {
                        assert(subviews.take(subviews.len() as int) =~= subviews);
                        assert(rows.deep_view() == retitle_rows(subviews));
                    }
                    return rows;
                }
                i += 1;
            }
            proof {
                lemma_first_passing_none(self.items@);
            }
            let title: String = {
                let t = crate::text::chars_of("1 of these");
                crate::text::string_of(&t)
            };
            let status = if w {
                RuleStatus::Waived
            } else {
                RuleStatus::Empty
            };
            rows.push(Record { title, subtitle: None, status, content: Vec::new() });
            proof {
                assert(rows@[0]@.content =~= Seq::<Seq<char>>::empty());
                if w {
                    assert(rows.deep_view() =~= seq![empty_one_row(RuleStatus::Waived)]);
                } else {
                    assert(rows.deep_view() =~= seq![empty_one_row(RuleStatus::Empty)]);
                }
            }
            rows
        } else {
            let mut i: usize = 0;
            proof {
                assert(self.items@.skip(0int) =~= self.items@);
            }
            while i < self.items.len()
                invariant
                    i <= self.items@.len(),
                    fmt_rules_size(self.items@) >= fmt_rules_size(self.items@.skip(i as int)),
                    items_rows_spec(self.items@, 1, show_prefix, w) == rows.deep_view()
                        + items_rows_spec(self.items@.skip(i as int), i + 1, show_prefix, w),
                    show_prefix == !all_requirements_spec(self.items@),
                    w == (is_waived || self.status == RuleStatus::Waived),
                decreases self.items@.len() - i,
            {
                proof {
                    assert(self.items@.skip(i as int)[0] == self.items@[i as int]);
                    assert(self.items@.skip(i as int).drop_first() =~= self.items@.skip(i + 1));
                    lemma_fmt_rules_size_element(self.items@, i as int);
                    lemma_fmt_rules_size_skip(self.items@, i as int);
                }
                let subs = self.items[i].get_row(student, options, w);
                let ghost subviews = rule_rows_spec(*self.items@[i as int], w);
                let ghost istatus = self.items@[i as int].status_spec();
                let ghost mapped = mapped_rows(subviews, i + 1, istatus, show_prefix);
                let item_status = *self.items[i].status();
                let pos: usize = i + 1;
                let mut k: usize = 0;
                let ghost rows_before = rows.deep_view();
                while k < subs.len()
                    invariant
                        k <= subs@.len(),
                        subs.deep_view() == subviews,
                        subviews.len() == subs@.len(),
                        mapped == mapped_rows(subviews, i + 1, istatus, show_prefix),
                        item_status == istatus,
                        i < self.items@.len(),
                        pos == i + 1,
                        rows.deep_view() == rows_before + mapped.take(k as int),
                    decreases subs@.len() - k,
                {
                    proof {
                        assert(subs@[k as int]@ == subviews[k as int]);
                    }
                    let sub = &subs[k];
                    let subtitle: Option<String> = match &sub.subtitle {
                        Some(s) => Some(s.clone()),
                        None => None,
                    };
                    let rec: Record = if show_prefix {
                        let mut t: Vec<char> = Vec::new();
                        t.push('#');
                        crate::text::push_u64(&mut t, pos as u64);
                        let mut arrow = crate::text::chars_of(" -> ");
                        t.append(&mut arrow);
                        let mut st = crate::text::chars_of(sub.title.as_str());
                        t.append(&mut st);
                        Record {
                            title: crate::text::string_of(&t),
                            subtitle,
                            status: item_status,
                            content: clone_strings(&sub.content),
                        }
                    } else if matches!(item_status, RuleStatus::Waived) {
                        Record {
                            title: sub.title.clone(),
                            subtitle,
                            status: RuleStatus::Waived,
                            content: Vec::new(),
                        }
                    } else if sub.content.len() == 0 {
                        Record {
                            title: sub.title.clone(),
                            subtitle,
                            status: RuleStatus::Empty,
                            content: Vec::new(),
                        }
                    } else {
                        Record {
                            title: sub.title.clone(),
                            subtitle,
                            status: item_status,
                            content: clone_strings(&sub.content),
                        }
                    };
                    let ghost pre = rows.deep_view();
                    let ghost pre_shallow = rows@;
                    proof {
                        assert(rows.deep_view() == Seq::new(
                            rows@.len(),
                            |q: int| rows@[q].deep_view(),
                        ));
                        assert(rows.deep_view().len() == rows_before.len() + k);
                    }
                    rows.push(rec);
                    proof {
                        assert(mapped[k as int] == sub_map(
                            subviews[k as int],
                            i + 1,
                            istatus,
                            show_prefix,
                        ));
                        assert(mapped.take(k + 1) =~= mapped.take(k as int).push(
                            mapped[k as int],
                        ));
                        assert forall|j: int| 0 <= j < rows@.len() implies rows.deep_view()[j] == (
                        rows_before + mapped.take(k + 1))[j] by {
                            if j < pre_shallow.len() {
                                assert(rows@[j] == pre_shallow[j]);
                                assert(pre_shallow[j].deep_view() == pre[j]);
                            } else {
                                assert(rows@[j]@.content =~= sub_map(
                                    subviews[k as int],
                                    i + 1,
                                    istatus,
                                    show_prefix,
                                ).content);
                                assert(rows@[j]@.title =~= sub_map(
                                    subviews[k as int],
                                    i + 1,
                                    istatus,
                                    show_prefix,
                                ).title);
                            }
                        }
                        assert(rows.deep_view() =~= rows_before + mapped.take(k + 1));
                    }
                    k += 1;
                }
                proof {
                    assert(mapped.take(mapped.len() as int) =~= mapped);
                    assert(items_rows_spec(self.items@.skip(i as int), i + 1, show_prefix, w)
                        == mapped + items_rows_spec(self.items@.skip(i + 1), i + 2, show_prefix, w));
                    assert(rows_before + mapped + items_rows_spec(
                        self.items@.skip(i + 1),
                        i + 2,
                        show_prefix,
                        w,
                    ) =~= (rows_before + mapped) + items_rows_spec(
                        self.items@.skip(i + 1),
                        i + 2,
                        show_prefix,
                        w,
                    ));
                }
                i += 1;
            }
            proof {
                assert(self.items@.skip(self.items@.len() as int) =~= Seq::<Box<Rule>>::empty());
                assert(items_rows_spec(
                    Seq::<Box<Rule>>::empty(),
                    self.items@.len() as int + 1,
                    show_prefix,
                    w,
                ) =~= Seq::<RecordView>::empty());
                assert(rows.deep_view() =~= items_rows_spec(self.items@, 1, show_prefix, w));
            }
            rows
        }
    }
}

/// A suffix never outweighs the whole.
proof fn lemma_fmt_rules_size_skip(l: Seq<Box<Rule>>, i: int)
    requires
        0 <= i <= l.len(),
    ensures
        fmt_rules_size(l.skip(i)) <= fmt_rules_size(l),
    decreases i,
{
    if i > 0 {
        assert(l.skip(i) =~= l.drop_first().skip(i - 1));
        lemma_fmt_rules_size_skip(l.drop_first(), i - 1);
    } else {
        assert(l.skip(0int) =~= l);
    }
}

} // verus!

verus! {

/// Waiver propagation: a child row under a waived parent — the inherited
/// flag is the or of the ancestors' flag and each node's own waived status
/// — reports status Waived with empty content, whatever the child's own
/// status and content held.
pub proof fn lemma_waiver_propagation(r: Rule)
    requires
        r is Requirement || r is Course,
    ensures
        forall|k: int|
            0 <= k < rule_rows_spec(r, true).len() ==> ((#[trigger] rule_rows_spec(r, true)[k]).status
                == RuleStatus::Waived && rule_rows_spec(r, true)[k].content.len() == 0),
{
}

/// `n` blank characters.
pub open spec fn spaces(n: nat) -> Seq<char> {
    Seq::new(n, |i: int| ' ')
}

/// Appends `n` blanks.
fn push_spaces(out: &mut Vec<char>, n: usize)
    ensures
        final(out)@ == old(out)@ + spaces(n as nat),
{
    let mut i: usize = 0;
    while i < n
        invariant
            i <= n,
            out@ == old(out)@ + spaces(i as nat),
        decreases n - i,
    {
        out.push(' ');
        proof {
            assert(out@ =~= old(out)@ + spaces((i + 1) as nat));
        }
        i += 1;
    }
}

} // verus!

verus! {

use super::ProseOptions;

impl AuditResult {
    /// The prose of one audit entry: its message on an indented line.
    pub open spec fn prose_spec(&self, indent: nat) -> Seq<char> {
        spaces(4 * indent) + self.message@ + "\n"@
    }

    /// Renders this audit entry.
    pub fn to_prose(
        &self,
        student: &crate::student::Student,
        options: &ProseOptions,
        indent: usize,
    ) -> (r: Vec<char>)
        requires
            indent <= 1000,
        ensures
            r@ == self.prose_spec(indent as nat),
    {
        let mut out: Vec<char> = Vec::new();
        push_spaces(&mut out, 4 * indent);
        let mut m = crate::text::chars_of(self.message.as_str());
        out.append(&mut m);
        out.push('\n');
        proof {
            reveal_strlit("\n");
            assert(seq!['\n'] =~= "\n"@);
            assert(out@ =~= self.prose_spec(indent as nat));
        }
        out
    }
}

/// The prose of the audit entries from number `idx` on.
pub open spec fn audits_prose(l: Seq<AuditResult>, idx: int, indent: nat) -> Seq<char>
    decreases l.len(),
{
    if l.len() == 0 {
        Seq::empty()
    } else {
        crate::text::u64_digits(idx) + ".\n"@ + l[0].prose_spec(indent) + audits_prose(
            l.drop_first(),
            idx + 1,
            indent,
        )
    }
}

/// The prose of the items from number `idx` on: each numbered on an
/// indented line, with a blank line between items except in a pair.
pub open spec fn items_prose(
    l: Seq<Box<Rule>>,
    idx: int,
    indent: nat,
    size: int,
) -> Seq<char>
    decreases fmt_rules_size(l), 4nat,
    via items_prose_decreases
{
    if l.len() == 0 {
        Seq::empty()
    } else {
        spaces(4 * (indent + 1)) + crate::text::u64_digits(idx) + ".\n"@ + rule_prose_spec(
            *l[0],
            ProseOptions { show_paths: false, show_ranks: false },
            indent + 2,
        ) + (if size != 2 && l.len() > 1 {
            "\n"@
        } else {
            Seq::empty()
        }) + items_prose(l.drop_first(), idx + 1, indent, size)
    }
}

#[via_fn]
proof fn items_prose_decreases(l: Seq<Box<Rule>>, idx: int, indent: nat, size: int) {
    if l.len() > 0 {
        lemma_fmt_rules_size_element(l, 0);
    }
}

/// The prose of an evaluated rule.
pub open spec fn rule_prose_spec(r: Rule, options: ProseOptions, indent: nat) -> Seq<char>
    decreases fmt_rule_size(r), 6nat,
{
    match r {
        Rule::Count(c) => count_prose_spec(c, options, indent),
        Rule::Requirement(q) => spaces(4 * indent) + "requirement: "@ + q.name@ + "\n"@ + spaces(
            4 * indent,
        ) + "status: "@ + q.status.label_spec() + "\n"@,
        Rule::Course(c) => spaces(4 * indent) + "course: "@ + c.course@ + "\n"@ + spaces(4 * indent)
            + "status: "@ + c.status.label_spec() + "\n"@,
    }
}

/// The heading a count node shows for its threshold and width.
pub open spec fn count_label(count: int, size: int) -> Seq<char> {
    if count == 1 && size == 2 {
        "either of (these 2)"@
    } else if count == 2 && size == 2 {
        "both of (these 2)"@
    } else if count == size {
        "all of (these "@ + crate::text::u64_digits(size) + ")"@
    } else if count == 2 {
        "any of (these "@ + crate::text::u64_digits(size) + ")"@
    } else {
        "at least "@ + crate::text::u64_digits(count) + " of "@ + crate::text::u64_digits(size)
    }
}

/// The heading lines of a count node's prose: optional path and rank
/// annotations, the status line, and the threshold heading with how many
/// children currently pass.
/// The optional path and rank annotation lines of a count node's prose.
pub open spec fn count_annotations_spec(c: CountRule, options: ProseOptions, indent: nat) -> Seq<
    char,
> {
    let ind = spaces(4 * indent);
    (if options.show_paths {
        ind + "path: "@ + crate::text::join_sep(c.path.0.deep_view(), "."@) + "\n"@
    } else {
        Seq::empty()
    }) + (if options.show_ranks {
        ind + "rank("@ + (if c.status.is_passing_spec() {
            "t"@
        } else {
            "f"@
        }) + "): "@ + c.rank@ + " of "@ + c.max_rank@ + "\n"@
    } else {
        Seq::empty()
    })
}

pub open spec fn count_header_spec(c: CountRule, options: ProseOptions, indent: nat) -> Seq<char> {
    let ind = spaces(4 * indent);
    let size = c.items@.len() as int;
    count_annotations_spec(c, options, indent) + ind + "status: "@ + c.status.label_spec() + "\n"@
        + ind + count_label(c.count as int, size) + " (ok: "@ + crate::text::u64_digits(
        count_passing(c.items@),
    ) + ", need: "@ + crate::text::u64_digits(c.count as int) + ")"@ + "\n"@
}

/// The post-hoc audit block of a count node's prose, when one exists.
pub open spec fn audit_block_spec(c: CountRule, indent: nat) -> Seq<char> {
    if c.audit@.len() > 0 {
        spaces(4 * indent) + "This requirement has a post-audit [status="@
            + c.audit_status.label_spec() + "]\n"@ + spaces(4 * (indent + 1)) + "There must be:\n"@
            + audits_prose(c.audit@, 1, indent + 2) + "\n"@
    } else {
        Seq::empty()
    }
}

/// The prose of a count node: its heading lines, the post-hoc audit block
/// when one exists, and the numbered items.
pub open spec fn count_prose_spec(c: CountRule, options: ProseOptions, indent: nat) -> Seq<char>
    decreases fmt_rules_size(c.items@), 5nat,
{
    count_header_spec(c, options, indent) + audit_block_spec(c, indent) + items_prose(
        c.items@,
        1,
        indent,
        c.items@.len() as int,
    )
}

} // verus!

verus! {

impl Rule {
    /// Renders this evaluated rule as indented prose (see
    /// [`rule_prose_spec`]).
    pub fn to_prose(
        &self,
        student: &crate::student::Student,
        options: &ProseOptions,
        indent: usize,
    ) -> (r: Vec<char>)
        requires
            indent + 2 * fmt_rule_size(*self) <= 1000,
        ensures
            r@ == rule_prose_spec(*self, *options, indent as nat),
        decreases fmt_rule_size(*self), 6nat,
    {
        match self {
            Rule::Count(c) => {
                proof {
                    assert(fmt_rule_size(*self) == 1 + fmt_rules_size(c.items@));
                }
                c.to_prose(student, options, indent)
            },
            Rule::Requirement(q) => {
                let mut out: Vec<char> = Vec::new();
                push_spaces(&mut out, 4 * indent);
                let mut lit = crate::text::chars_of("requirement: ");
                out.append(&mut lit);
                let mut name = crate::text::chars_of(q.name.as_str());
                out.append(&mut name);
                out.push('\n');
                push_spaces(&mut out, 4 * indent);
                let mut lit2 = crate::text::chars_of("status: ");
                out.append(&mut lit2);
                q.status.push_label(&mut out);
                out.push('\n');
                proof {
                    reveal_strlit("\n");
                    assert(seq!['\n'] =~= "\n"@);
                    assert(out@ =~= rule_prose_spec(*self, *options, indent as nat));
                }
                out
            },
            Rule::Course(c) => {
                let mut out: Vec<char> = Vec::new();
                push_spaces(&mut out, 4 * indent);
                let mut lit = crate::text::chars_of("course: ");
                out.append(&mut lit);
                let mut label = crate::text::chars_of(c.course.as_str());
                out.append(&mut label);
                out.push('\n');
                push_spaces(&mut out, 4 * indent);
                let mut lit2 = crate::text::chars_of("status: ");
                out.append(&mut lit2);
                c.status.push_label(&mut out);
                out.push('\n');
                proof {
                    reveal_strlit("\n");
                    assert(seq!['\n'] =~= "\n"@);
                    assert(out@ =~= rule_prose_spec(*self, *options, indent as nat));
                }
                out
            },
        }
    }
}

impl CountRule {
    /// Renders this count node as indented prose (see
    /// [`count_prose_spec`]).
    /// Renders the annotation lines (see [`count_annotations_spec`]).
    #[verifier::rlimit(60)]
    fn annotations_prose(&self, options: &ProseOptions, indent: usize) -> (r: Vec<char>)
        requires
            indent <= 1000,
        ensures
            r@ == count_annotations_spec(*self, *options, indent as nat),
    {
        let mut out: Vec<char> = Vec::new();
        proof {
            reveal_strlit("\n");
            assert(seq!['\n'] =~= "\n"@);
        }
        if options.show_paths {
            push_spaces(&mut out, 4 * indent);
            let mut lit = crate::text::chars_of("path: ");
            out.append(&mut lit);
            let ptext = self.path.to_text();
            let mut pc = crate::text::chars_of(ptext.as_str());
            out.append(&mut pc);
            out.push('\n');
        }
        if options.show_ranks {
            push_spaces(&mut out, 4 * indent);
            let mut lit = crate::text::chars_of("rank(");
            out.append(&mut lit);
            if self.status.is_passing() {
                out.push('t');
                proof {
                    reveal_strlit("t");
                    assert(seq!['t'] =~= "t"@);
                }
            } else {
                out.push('f');
                proof {
                    reveal_strlit("f");
                    assert(seq!['f'] =~= "f"@);
                }
            }
            let mut lit2 = crate::text::chars_of("): ");
            out.append(&mut lit2);
            let mut rk = crate::text::chars_of(self.rank.as_str());
            out.append(&mut rk);
            let mut lit3 = crate::text::chars_of(" of ");
            out.append(&mut lit3);
            let mut mr = crate::text::chars_of(self.max_rank.as_str());
            out.append(&mut mr);
            out.push('\n');
        }
        proof {
            assert(out@ =~= count_annotations_spec(*self, *options, indent as nat));
        }
        out
    }

    /// Renders the heading lines (see [`count_header_spec`]).
    #[verifier::rlimit(60)]
    fn header_prose(&self, options: &ProseOptions, indent: usize) -> (r: Vec<char>)
        requires
            indent <= 1000,
        ensures
            r@ == count_header_spec(*self, *options, indent as nat),
    {
        proof {
            reveal_strlit("\n");
            assert(seq!['\n'] =~= "\n"@);
        }
        let mut out = self.annotations_prose(options, indent);
        push_spaces(&mut out, 4 * indent);
        let mut lit4 = crate::text::chars_of("status: ");
        out.append(&mut lit4);
        self.status.push_label(&mut out);
        out.push('\n');
        push_spaces(&mut out, 4 * indent);
        let size = self.items.len();
        if self.count == 1 && size == 2 {
            let mut lab = crate::text::chars_of("either of (these 2)");
            out.append(&mut lab);
        } else if self.count == 2 && size == 2 {
            let mut lab = crate::text::chars_of("both of (these 2)");
            out.append(&mut lab);
        } else if self.count == size {
            let mut lab = crate::text::chars_of("all of (these ");
            out.append(&mut lab);
            crate::text::push_u64(&mut out, size as u64);
            out.push(')');
            proof {
                reveal_strlit(")");
                assert(seq![')'] =~= ")"@);
            }
        } else if self.count == 2 {
            let mut lab = crate::text::chars_of("any of (these ");
            out.append(&mut lab);
            crate::text::push_u64(&mut out, size as u64);
            out.push(')');
            proof {
                reveal_strlit(")");
                assert(seq![')'] =~= ")"@);
            }
        } else {
            let mut lab = crate::text::chars_of("at least ");
            out.append(&mut lab);
            crate::text::push_u64(&mut out, self.count as u64);
            let mut lab2 = crate::text::chars_of(" of ");
            out.append(&mut lab2);
            crate::text::push_u64(&mut out, size as u64);
        }
        let ok_count = self.passing_count();
        let mut lit5 = crate::text::chars_of(" (ok: ");
        out.append(&mut lit5);
        crate::text::push_u64(&mut out, ok_count as u64);
        let mut lit6 = crate::text::chars_of(", need: ");
        out.append(&mut lit6);
        crate::text::push_u64(&mut out, self.count as u64);
        out.push(')');
        out.push('\n');
        proof {
            reveal_strlit(")");
            assert(seq![')'] =~= ")"@);
            assert(out@ =~= count_header_spec(*self, *options, indent as nat));
        }
        out
    }

    /// Renders this count node as indented prose (see
    /// [`count_prose_spec`]).
    #[verifier::rlimit(60)]
    pub fn to_prose(
        &self,
        student: &crate::student::Student,
        options: &ProseOptions,
        indent: usize,
    ) -> (r: Vec<char>)
        requires
            indent + 2 * (1 + fmt_rules_size(self.items@)) <= 1000,
        ensures
            r@ == count_prose_spec(*self, *options, indent as nat),
        decreases fmt_rules_size(self.items@), 5nat,
    {
        proof {
            reveal_strlit("\n");
            assert(seq!['\n'] =~= "\n"@);
        }
        let size = self.items.len();
        let mut out = self.header_prose(options, indent);
        if self.audit.len() > 0 {
            push_spaces(&mut out, 4 * indent);
            let mut lit7 = crate::text::chars_of("This requirement has a post-audit [status=");
            out.append(&mut lit7);
            self.audit_status.push_label(&mut out);
            let mut lit8 = crate::text::chars_of("]\n");
            out.append(&mut lit8);
            push_spaces(&mut out, 4 * (indent + 1));
            let mut lit9 = crate::text::chars_of("There must be:\n");
            out.append(&mut lit9);
            let ghost audit_base = out@;
            let mut i: usize = 0;
            proof {
                assert(self.audit@.skip(0int) =~= self.audit@);
            }
            while i < self.audit.len()
                invariant
                    i <= self.audit@.len(),
                    indent <= 998,
                    audit_base + audits_prose(self.audit@, 1, (indent + 2) as nat) == out@
                        + audits_prose(self.audit@.skip(i as int), i + 1, (indent + 2) as nat),
                decreases self.audit@.len() - i,
            {
                proof {
                    assert(self.audit@.skip(i as int)[0] == self.audit@[i as int]);
                    assert(self.audit@.skip(i as int).drop_first() =~= self.audit@.skip(i + 1));
                }
                let pos: usize = i + 1;
                crate::text::push_u64(&mut out, pos as u64);
                out.push('.');
                out.push('\n');
                let mut ap = self.audit[i].to_prose(student, options, indent + 2);
                out.append(&mut ap);
                proof {
                    reveal_strlit(".\n");
                    assert(seq!['.', '\n'] =~= ".\n"@);
                }
                i += 1;
            }
            proof {
                assert(self.audit@.skip(self.audit@.len() as int) =~= Seq::<AuditResult>::empty());
                assert(audits_prose(
                    Seq::<AuditResult>::empty(),
                    self.audit@.len() as int + 1,
                    (indent + 2) as nat,
                ) =~= Seq::<char>::empty());
                assert(out@ =~= audit_base + audits_prose(self.audit@, 1, (indent + 2) as nat));
            }
            out.push('\n');
        }
        proof {
            assert(out@ =~= count_header_spec(*self, *options, indent as nat) + audit_block_spec(
                *self,
                indent as nat,
            ));
        }
        let ghost items_base = out@;
        let mut i: usize = 0;
        proof {
            assert(self.items@.skip(0int) =~= self.items@);
        }
        while i < self.items.len()
            invariant
                i <= self.items@.len(),
                indent + 2 * (1 + fmt_rules_size(self.items@)) <= 1000,
                size == self.items@.len(),
                items_base + items_prose(self.items@, 1, indent as nat, size as int) == out@
                    + items_prose(
                    self.items@.skip(i as int),
                    i + 1,
                    indent as nat,
                    size as int,
                ),
            decreases self.items@.len() - i,
        {
            proof {
                assert(self.items@.skip(i as int)[0] == self.items@[i as int]);
                assert(self.items@.skip(i as int).drop_first() =~= self.items@.skip(i + 1));
                lemma_fmt_rules_size_element(self.items@, i as int);
                lemma_fmt_rules_size_skip(self.items@, i as int);
            }
            push_spaces(&mut out, 4 * (indent + 1));
            let pos: usize = i + 1;
            crate::text::push_u64(&mut out, pos as u64);
            out.push('.');
            out.push('\n');
            proof {
                reveal_strlit(".\n");
                assert(seq!['.', '\n'] =~= ".\n"@);
            }
            let plain = ProseOptions { show_paths: false, show_ranks: false };
            proof {
                lemma_fmt_rules_size_element(self.items@, i as int);
            }
            let mut ip = self.items[i].to_prose(student, &plain, indent + 2);
            out.append(&mut ip);
            if size != 2 && i + 1 < self.items.len() {
                out.push('\n');
                proof {
                    reveal_strlit("\n");
                    assert(seq!['\n'] =~= "\n"@);
                }
            }
            proof {
                assert(self.items@.skip(i as int).len() > 1 <==> i + 1 < self.items@.len());
            }
            i += 1;
        }
        proof {
            assert(self.items@.skip(self.items@.len() as int) =~= Seq::<Box<Rule>>::empty());
            assert(items_prose(
                Seq::<Box<Rule>>::empty(),
                self.items@.len() as int + 1,
                indent as nat,
                size as int,
            ) =~= Seq::<char>::empty());
            assert(out@ =~= items_base + items_prose(self.items@, 1, indent as nat, size as int));
            assert(out@ =~= count_prose_spec(*self, *options, indent as nat));
        }
        out
    }
}

} // verus!

verus! {

/// The requirement names an evaluated rule mentions, in order.
pub open spec fn rule_reqs_spec(r: Rule) -> Seq<Seq<char>>
    decreases fmt_rule_size(r), 0nat,
{
    match r {
        Rule::Count(c) => items_reqs_spec(c.items@),
        Rule::Requirement(q) => seq![q.name@],
        Rule::Course(_) => Seq::empty(),
    }
}

/// The requirement names the items mention, in order.
pub open spec fn items_reqs_spec(l: Seq<Box<Rule>>) -> Seq<Seq<char>>
    decreases fmt_rules_size(l), 1nat,
    via items_reqs_spec_decreases
{
    if l.len() == 0 {
        Seq::empty()
    } else {
        rule_reqs_spec(*l[0]) + items_reqs_spec(l.drop_first())
    }
}

#[via_fn]
proof fn items_reqs_spec_decreases(l: Seq<Box<Rule>>) {
    if l.len() > 0 {
        lemma_fmt_rules_size_element(l, 0);
    }
}

impl Rule {
    /// The requirement names this rule mentions (see [`rule_reqs_spec`]).
    pub fn get_requirements(&self) -> (r: Vec<String>)
        ensures
            r.deep_view() == rule_reqs_spec(*self),
        decreases fmt_rule_size(*self), 0nat,
    {
        match self {
            Rule::Count(c) => c.get_requirements(),
            Rule::Requirement(q) => {
                let mut r: Vec<String> = Vec::new();
                r.push(q.name.clone());
                proof {
                    assert(r.deep_view() =~= seq![q.name@]);
                }
                r
            },
            Rule::Course(_) => {
                let r: Vec<String> = Vec::new();
                proof {
                    assert(r.deep_view() =~= Seq::<Seq<char>>::empty());
                }
                r
            },
        }
    }
}

impl CountRule {
    /// The requirement names this node's items mention, in order.
    pub fn get_requirements(&self) -> (r: Vec<String>)
        ensures
            r.deep_view() == items_reqs_spec(self.items@),
        decreases fmt_rules_size(self.items@), 1nat,
    {
        let mut r: Vec<String> = Vec::new();
        let mut i: usize = 0;
        proof {
            assert(self.items@.skip(0int) =~= self.items@);
        }
        while i < self.items.len()
            invariant
                i <= self.items@.len(),
                items_reqs_spec(self.items@) == r.deep_view() + items_reqs_spec(
                    self.items@.skip(i as int),
                ),
            decreases self.items@.len() - i,
        {
            proof {
                assert(self.items@.skip(i as int)[0] == self.items@[i as int]);
                assert(self.items@.skip(i as int).drop_first() =~= self.items@.skip(i + 1));
                lemma_fmt_rules_size_element(self.items@, i as int);
                lemma_fmt_rules_size_skip(self.items@, i as int);
            }
            let mut sub = self.items[i].get_requirements();
            let ghost pre = r.deep_view();
            let ghost pre_shallow = r@;
            let ghost subviews = rule_reqs_spec(*self.items@[i as int]);
            proof {
                assert(r.deep_view() == Seq::new(r@.len(), |q: int| r@[q].deep_view()));
                assert(sub.deep_view() == Seq::new(sub@.len(), |q: int| sub@[q].deep_view()));
            }
            r.append(&mut sub);
            proof {
                assert forall|j: int| 0 <= j < r@.len() implies r.deep_view()[j] == (pre
                    + subviews)[j] by {
                    if j < pre_shallow.len() {
                        assert(r@[j] == pre_shallow[j]);
                        assert(pre_shallow[j].deep_view() == pre[j]);
                    }
                }
                assert(r.deep_view() =~= pre + subviews);
                assert(pre + subviews + items_reqs_spec(self.items@.skip(i + 1)) =~= pre + (
                subviews + items_reqs_spec(self.items@.skip(i + 1))));
            }
            i += 1;
        }
        proof {
            assert(self.items@.skip(self.items@.len() as int) =~= Seq::<Box<Rule>>::empty());
            assert(items_reqs_spec(Seq::<Box<Rule>>::empty()) =~= Seq::<Seq<char>>::empty());
            assert(r.deep_view() =~= items_reqs_spec(self.items@));
        }
        r
    }
}

} // verus!
