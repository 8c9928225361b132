//! The student record an audit reads: the transcript's courses with their
//! identity, attributes and flags, the student's declared areas, and the
//! music-program extras. Constructed once from external transcript data and
//! immutable during an audit run.

use vstd::prelude::*;

use crate::rule::RuleStatus;
use crate::text::{chars_of, string_of, u64_digits};
use crate::value::chars_eq;

verus! {

/// A student's transcript and declarations.
#[derive(Debug, Clone)]
pub struct Student {
    pub areas: Vec<AreaOfStudy>,
    pub catalog: String,
    pub courses: Vec<Course>,
    pub covid: Option<bool>,
    pub current_term: String,
    pub curriculum: String,
    pub matriculation: String,
    pub mediums: StudentPerformingMediums,
    pub organizations: Vec<StudentOrganization>,
    pub performance_attendances: Vec<Attendance>,
    pub performances: Vec<Performance>,
    pub stnum: String,
}

/// A campus organization membership.
#[derive(Debug, PartialEq, Clone)]
pub struct StudentOrganization {
    pub dept: String,
    pub id: String,
    pub instrument: Option<String>,
    pub role: String,
    pub name: String,
    pub term: String,
    pub year: String,
}

/// An attended performance.
#[derive(Debug, PartialEq, Clone)]
pub struct Attendance {
    pub id: String,
    pub name: String,
    pub term: String,
    pub year: String,
}

/// A given performance.
#[derive(Debug, PartialEq, Clone)]
pub struct Performance {
    pub id: String,
    pub name: String,
    pub term: String,
    pub year: String,
}

/// Primary and secondary performing mediums.
#[derive(Debug, PartialEq, Clone)]
pub struct StudentPerformingMediums {
    pub ppm: String,
    pub ppm2: String,
    pub spm: String,
    pub spm2: String,
}

/// A proficiency mark.
#[derive(Debug, PartialEq, Eq, Structural, Clone, Copy)]
pub enum StudentProficiencyType {
    Y,
    C,
    N,
}

/// Keyboard and guitar proficiencies.
#[derive(Debug, PartialEq, Eq, Structural, Clone, Copy)]
pub struct StudentProficiencies {
    pub guitar: StudentProficiencyType,
    pub keyboard_1: StudentProficiencyType,
    pub keyboard_2: StudentProficiencyType,
    pub keyboard_3: StudentProficiencyType,
    pub keyboard_4: StudentProficiencyType,
}

/// The stable identity of one enrollment record.
#[derive(Debug, PartialEq, Clone)]
pub struct ClassLabId(pub String);

/// The identity of a course offering.
#[derive(Debug, PartialEq, Clone)]
pub struct CourseId(pub String);

/// One course on the transcript. The numeric level is carried as a plain
/// unsigned number.
#[derive(Debug, PartialEq, Clone)]
pub struct Course {
    pub attributes: Vec<String>,
    pub clbid: ClassLabId,
    pub course: String,
    pub course_type: String,
    pub credits: String,
    pub crsid: CourseId,
    pub flag_gpa: bool,
    pub flag_in_progress: bool,
    pub flag_incomplete: bool,
    pub flag_individual_major: bool,
    pub flag_repeat: bool,
    pub flag_stolaf: bool,
    pub gereqs: Vec<String>,
    pub grade_code: String,
    pub grade_option: String,
    pub grade_points: String,
    pub grade_points_gpa: String,
    pub institution_name: String,
    pub institution_short: String,
    pub level: u64,
    pub name: String,
    pub number: String,
    pub section: Option<String>,
    pub sub_type: String,
    pub subject: String,
    pub term: String,
    pub transcript_code: String,
    pub transcript_code_long: String,
    pub year: String,
}

/// A manual exception applied to an audit.
#[derive(Debug, PartialEq, Clone)]
pub enum Exception {
    Insert { path: crate::rule::Path, area_code: String, clbid: ClassLabId },
    ForceInsert { path: crate::rule::Path, area_code: String, clbid: ClassLabId },
    Override { path: crate::rule::Path, area_code: String, clbid: ClassLabId },
}

/// A declared area of study on the student record.
#[derive(Debug, PartialEq, Clone)]
pub enum AreaOfStudy {
    Degree(Degree),
    Major(Major),
    Concentration(Concentration),
    Emphasis(Emphasis),
}

/// A declared degree.
#[derive(Debug, PartialEq, Clone)]
pub struct Degree {
    pub code: String,
    pub degree: String,
    pub gpa: String,
    pub name: String,
    pub status: String,
}

/// A declared major.
#[derive(Debug, PartialEq, Clone)]
pub struct Major {
    pub code: String,
    pub degree: String,
    pub dept: String,
    pub name: String,
    pub status: String,
}

/// A declared concentration.
#[derive(Debug, PartialEq, Clone)]
pub struct Concentration {
    pub code: String,
    pub degree: String,
    pub dept: String,
    pub name: String,
    pub status: String,
}

/// A declared emphasis.
#[derive(Debug, PartialEq, Clone)]
pub struct Emphasis {
    pub code: String,
    pub degree: String,
    pub dept: String,
    pub name: String,
    pub status: String,
}

impl Student {
    /// The course enrolled under `clbid`, if any: the first with that
    /// identity.
    pub fn get_class_by_clbid(&self, clbid: &ClassLabId) -> (r: Option<&Course>)
        ensures
            (match r {
                Some(c) => exists|i: int|
                    0 <= i < self.courses@.len() && (#[trigger] self.courses@[i]).clbid.0@
                        == clbid.0@ && c == &self.courses@[i],
                None => forall|i: int|
                    0 <= i < self.courses@.len() ==> (#[trigger] self.courses@[i]).clbid.0@
                        != clbid.0@,
            }),
    {
        let kc = chars_of(clbid.0.as_str());
        let mut i: usize = 0;
        while i < self.courses.len()
            invariant
                i <= self.courses@.len(),
                kc@ == clbid.0@,
                forall|k: int|
                    0 <= k < i ==> (#[trigger] self.courses@[k]).clbid.0@ != clbid.0@,
            decreases self.courses@.len() - i,
        {
            let cc = chars_of(self.courses[i].clbid.0.as_str());
            if chars_eq(cc.as_slice(), kc.as_slice()) {
                return Some(&self.courses[i]);
            }
            i += 1;
        }
        None
    }
}

/// One character rendered as the debug formatter would inside quotes.
pub open spec fn escape_char(c: char) -> Seq<char> {
    if c == '"' {
        seq!['\\', '"']
    } else if c == '\\' {
        seq!['\\', '\\']
    } else if c == '\n' {
        seq!['\\', 'n']
    } else if c == '\r' {
        seq!['\\', 'r']
    } else if c == '\t' {
        seq!['\\', 't']
    } else {
        seq![c]
    }
}

/// The characters of `s`, escaped.
pub open spec fn escaped(s: Seq<char>) -> Seq<char>
    decreases s.len(),
{
    if s.len() == 0 {
        Seq::empty()
    } else {
        escaped(s.drop_last()) + escape_char(s.last())
    }
}

/// `s` in double quotes with quotes, backslashes and the common control
/// characters escaped.
pub open spec fn quoted(s: Seq<char>) -> Seq<char> {
    seq!['"'] + escaped(s) + seq!['"']
}

/// Appends `s` quoted and escaped.
pub fn push_quoted(out: &mut Vec<char>, s: &str)
    ensures
        final(out)@ == old(out)@ + quoted(s@),
{
    out.push('"');
    let cs = chars_of(s);
    let mut i: usize = 0;
    let ghost base = out@;
    while i < cs.len()
        invariant
            i <= cs@.len(),
            cs@ == s@,
            out@ == base + escaped(s@.take(i as int)),
        decreases cs@.len() - i,
    {
        proof {
            assert(s@.take(i + 1).drop_last() =~= s@.take(i as int));
            assert(s@.take(i + 1).last() == s@[i as int]);
        }
        let c = cs[i];
        if c == '"' {
            out.push('\\');
            out.push('"');
        } else if c == '\\' {
            out.push('\\');
            out.push('\\');
        } else if c == '\n' {
            out.push('\\');
            out.push('n');
        } else if c == '\r' {
            out.push('\\');
            out.push('r');
        } else if c == '\t' {
            out.push('\\');
            out.push('t');
        } else {
            out.push(c);
        }
        proof {
            assert(out@ =~= base + escaped(s@.take(i + 1)));
        }
        i += 1;
    }
    out.push('"');
    proof {
        assert(s@.take(s@.len() as int) =~= s@);
        assert(out@ =~= old(out)@ + quoted(s@));
    }
}

} // verus!

verus! {

impl Course {
    /// The year-term tag, `year-term`.
    pub open spec fn year_term_spec(&self) -> Seq<char> {
        self.year@ + "-"@ + self.term@
    }

    /// The course label with its term: the subject, then the numbered
    /// section-and-kind label (or the quoted name when there is no number),
    /// then the year-term tag.
    pub open spec fn course_with_term_spec(&self) -> Seq<char> {
        let label: Seq<char> = if self.number@.len() == 0 {
            seq!['"'] + self.name@ + seq!['"']
        } else {
            let suffix: Seq<char> = if self.sub_type@ == "lab"@ {
                ".L"@
            } else if self.sub_type@ == "flac"@ {
                ".F"@
            } else if self.sub_type@ == "discussion"@ {
                ".D"@
            } else {
                Seq::empty()
            };
            let section: Seq<char> = match self.section {
                Some(s) => s@,
                None => Seq::empty(),
            };
            self.number@ + section + suffix
        };
        self.subject@ + seq![' '] + label + seq![' '] + self.year_term_spec()
    }

    /// Renders the course label with its term (see
    /// [`Self::course_with_term_spec`]).
    pub fn course_with_term(&self) -> (r: String)
        ensures
            r@ == self.course_with_term_spec(),
    {
        let mut out: Vec<char> = Vec::new();
        let mut subj = chars_of(self.subject.as_str());
        out.append(&mut subj);
        out.push(' ');
        if self.number.as_str().unicode_len() == 0 {
            out.push('"');
            let mut name = chars_of(self.name.as_str());
            out.append(&mut name);
            out.push('"');
        } else {
            let mut num = chars_of(self.number.as_str());
            out.append(&mut num);
            match &self.section {
                Some(s) => {
                    let mut sec = chars_of(s.as_str());
                    out.append(&mut sec);
                },
                None => {},
            }
            let st = chars_of(self.sub_type.as_str());
            let lab = chars_of("lab");
            let flac = chars_of("flac");
            let disc = chars_of("discussion");
            if chars_eq(st.as_slice(), lab.as_slice()) {
                out.push('.');
                out.push('L');
                proof {
                    reveal_strlit(".L");
                    assert(seq!['.', 'L'] =~= ".L"@);
                }
            } else if chars_eq(st.as_slice(), flac.as_slice()) {
                out.push('.');
                out.push('F');
                proof {
                    reveal_strlit(".F");
                    assert(seq!['.', 'F'] =~= ".F"@);
                }
            } else if chars_eq(st.as_slice(), disc.as_slice()) {
                out.push('.');
                out.push('D');
                proof {
                    reveal_strlit(".D");
                    assert(seq!['.', 'D'] =~= ".D"@);
                }
            }
        }
        out.push(' ');
        let mut year = chars_of(self.year.as_str());
        out.append(&mut year);
        out.push('-');
        let mut term = chars_of(self.term.as_str());
        out.append(&mut term);
        proof {
            reveal_strlit("-");
            assert(seq!['-'] =~= "-"@);
            assert(out@ =~= self.course_with_term_spec());
        }
        string_of(&out)
    }

    /// The semi-verbose label: the label with its term, prefixed with the
    /// short institution name when the course was taken elsewhere.
    pub open spec fn semi_verbose_spec(&self) -> Seq<char> {
        if self.institution_short@ == "STOLAF"@ {
            self.course_with_term_spec()
        } else {
            seq!['['] + self.institution_short@ + "] "@ + self.course_with_term_spec()
        }
    }

    /// Renders the semi-verbose label (see [`Self::semi_verbose_spec`]).
    pub fn semi_verbose(&self) -> (r: String)
        ensures
            r@ == self.semi_verbose_spec(),
    {
        let inst = chars_of(self.institution_short.as_str());
        let home = chars_of("STOLAF");
        if chars_eq(inst.as_slice(), home.as_slice()) {
            self.course_with_term()
        } else {
            let mut out: Vec<char> = Vec::new();
            out.push('[');
            let mut i2 = chars_of(self.institution_short.as_str());
            out.append(&mut i2);
            out.push(']');
            out.push(' ');
            let cwt = self.course_with_term();
            let mut cs = chars_of(cwt.as_str());
            out.append(&mut cs);
            proof {
                reveal_strlit("] ");
                assert(seq![']', ' '] =~= "] "@);
                assert(out@ =~= self.semi_verbose_spec());
            }
            string_of(&out)
        }
    }

    /// The verbose label: the label with its term, the quoted name, the
    /// credits, the debug-quoted grade code and the enrollment identity —
    /// with the short institution name added for transfer courses.
    pub open spec fn verbose_spec(&self) -> Seq<char> {
        let head = self.course_with_term_spec() + seq![' ', '"'] + self.name@ + seq!['"', ' '];
        let tail = self.credits@ + seq![' '] + quoted(self.grade_code@) + " #ClassLabId("@ + quoted(
            self.clbid.0@,
        ) + seq![')'];
        if self.institution_short@ == "STOLAF"@ {
            head + tail
        } else {
            head + seq!['['] + self.institution_short@ + "] "@ + tail
        }
    }

    /// Renders the verbose label (see [`Self::verbose_spec`]).
    pub fn verbose(&self) -> (r: String)
        ensures
            r@ == self.verbose_spec(),
    {
        let mut out: Vec<char> = Vec::new();
        let cwt = self.course_with_term();
        let mut cs = chars_of(cwt.as_str());
        out.append(&mut cs);
        out.push(' ');
        out.push('"');
        let mut name = chars_of(self.name.as_str());
        out.append(&mut name);
        out.push('"');
        out.push(' ');
        let inst = chars_of(self.institution_short.as_str());
        let home = chars_of("STOLAF");
        if !chars_eq(inst.as_slice(), home.as_slice()) {
            out.push('[');
            let mut i2 = chars_of(self.institution_short.as_str());
            out.append(&mut i2);
            out.push(']');
            out.push(' ');
        }
        let mut credits = chars_of(self.credits.as_str());
        out.append(&mut credits);
        out.push(' ');
        push_quoted(&mut out, self.grade_code.as_str());
        let mut marker = chars_of(" #ClassLabId(");
        out.append(&mut marker);
        push_quoted(&mut out, self.clbid.0.as_str());
        out.push(')');
        proof {
            reveal_strlit("] ");
            assert(seq![']', ' '] =~= "] "@);
            assert(out@ =~= self.verbose_spec());
        }
        string_of(&out)
    }

    /// The audit symbol shown beside the course: a waiver mark first, then
    /// the incomplete, in-progress and repeat flags, else the plain mark.
    pub open spec fn symbol_spec(&self, status: RuleStatus) -> Seq<char> {
        if status == RuleStatus::Waived {
            "[ovr]"@
        } else if self.flag_incomplete {
            "[dnf]"@
        } else if self.flag_in_progress {
            "[ip?]"@
        } else if self.flag_repeat {
            "[rep]"@
        } else {
            "[ ok]"@
        }
    }

    /// Picks the audit symbol (see [`Self::symbol_spec`]).
    pub fn calculate_symbol(&self, status: &RuleStatus) -> (r: &'static str)
        ensures
            r@ == self.symbol_spec(*status),
    {
        if matches!(status, RuleStatus::Waived) {
            "[ovr]"
        } else if self.flag_incomplete {
            "[dnf]"
        } else if self.flag_in_progress {
            "[ip?]"
        } else if self.flag_repeat {
            "[rep]"
        } else {
            "[ ok]"
        }
    }
}

} // verus!
