//! The data that the service exchanges: runs, screenshots and comparisons,
//! and how a comparison is reported.

use vstd::prelude::*;

use crate::external::{format_uuid, join_url, text_option, url_joined, uuid_text};
use crate::text::{decimal, decimal_text, push_decimal, starts_with};

verus! {

/// A run, as the service describes it.
pub struct Run {
    pub id: u32,
}

/// A screenshot: its name and the hash of its content.
#[derive(Clone, PartialEq, Eq, Hash, Debug)]
pub struct Screenshot {
    pub name: String,
    pub hash: String,
}

/// How far the service got in comparing a changed screenshot.
#[derive(Clone, Copy, PartialEq, Eq, Structural, Debug)]
pub enum Difference {
    Unknown,
    Processing,
    /// Done, with the fraction of differing pixels as the bit pattern of an
    /// IEEE-754 single-precision number.
    Done(u32),
}

/// A screenshot whose content changed between the two runs.
pub struct ChangedScreenshot {
    pub name: String,
    pub hash: String,
    pub previous_hash: String,
    pub diff: Difference,
}

/// The comparison of two runs.
pub struct ComparisonResult {
    /// The project, as the 128-bit value of its UUID.
    pub project_id: u128,
    pub from: u32,
    pub to: u32,
    pub missing: Vec<Screenshot>,
    pub new: Vec<Screenshot>,
    pub diff: Vec<ChangedScreenshot>,
    pub unchanged: Vec<Screenshot>,
    /// The serialization of the URL of the service that the comparison came
    /// from, once known.
    pub project_url: Option<String>,
}

/// The names of a list of screenshots.
pub open spec fn screenshot_names(s: Seq<Screenshot>) -> Seq<Seq<char>> {
    s.map_values(|x: Screenshot| x.name@)
}

/// One ` - name` line for each name.
pub open spec fn name_lines(names: Seq<Seq<char>>) -> Seq<char>
    decreases names.len(),
{
    if names.len() == 0 {
        Seq::empty()
    } else {
        name_lines(names.drop_last()) + " - "@ + names.last() + "\n"@
    }
}

/// How many comparisons are done.
pub open spec fn done_count(d: Seq<ChangedScreenshot>) -> nat
    decreases d.len(),
{
    if d.len() == 0 {
        0
    } else {
        done_count(d.drop_last()) + if d.last().diff is Done {
            1nat
        } else {
            0nat
        }
    }
}

/// How many comparisons are still under way.
pub open spec fn processing_count(d: Seq<ChangedScreenshot>) -> nat
    decreases d.len(),
{
    if d.len() == 0 {
        0
    } else {
        processing_count(d.drop_last()) + if d.last().diff is Done {
            0nat
        } else {
            1nat
        }
    }
}

/// A section of the report: a header line of the count and the label, then
/// the lines; absent when the count is zero.
pub open spec fn counted_section(count: nat, label: Seq<char>, lines: Seq<char>) -> Seq<char> {
    if count == 0 {
        Seq::empty()
    } else {
        decimal_text(count) + label + lines
    }
}

/// The start of the report of a comparison: the summary line, then the
/// missing and the new screenshots.
pub open spec fn report_summary(c: ComparisonResult) -> Seq<char> {
    decimal_text(c.new@.len() + c.diff@.len() + c.unchanged@.len()) + " screenshots, "@
        + decimal_text(c.unchanged@.len()) + " unchanged\n"@ + name_section(
        c.missing@,
        " missing\n"@,
    ) + name_section(c.new@, " new\n"@)
}

/// The ` - name` lines of the names, without their line ends.
pub open spec fn item_lines(names: Seq<Seq<char>>) -> Seq<Seq<char>> {
    names.map_values(|n: Seq<char>| " - "@ + n)
}

/// The ` - name (percent%)` line of each done comparison, without its line
/// end, with the percentage text at the same position in `p`.
pub open spec fn changed_item_lines(d: Seq<ChangedScreenshot>, p: Seq<Seq<char>>) -> Seq<Seq<char>>
    decreases d.len(),
{
    if d.len() == 0 {
        Seq::empty()
    } else {
        changed_item_lines(d.drop_last(), p) + if d.last().diff is Done {
            seq![" - "@ + d.last().name@ + " ("@ + p[d.len() - 1] + "%)"@]
        } else {
            Seq::empty()
        }
    }
}

/// The ` - name` line of each comparison still under way, without its line
/// end.
pub open spec fn waiting_item_lines(d: Seq<ChangedScreenshot>) -> Seq<Seq<char>>
    decreases d.len(),
{
    if d.len() == 0 {
        Seq::empty()
    } else {
        waiting_item_lines(d.drop_last()) + if d.last().diff is Done {
            Seq::empty()
        } else {
            seq![" - "@ + d.last().name@]
        }
    }
}

/// A block of report lines: the header line of the count and the label,
/// then the items; absent when the count is zero.
pub open spec fn header_block(count: nat, label: Seq<char>, items: Seq<Seq<char>>) -> Seq<
    Seq<char>,
> {
    if count == 0 {
        Seq::empty()
    } else {
        seq![decimal_text(count) + label] + items
    }
}

/// The first line of the report of a comparison.
pub open spec fn summary_line(c: ComparisonResult) -> Seq<char> {
    decimal_text(c.new@.len() + c.diff@.len() + c.unchanged@.len()) + " screenshots, "@
        + decimal_text(c.unchanged@.len()) + " unchanged"@
}

/// A header line of the report: one that is not a ` - ` item.
pub open spec fn is_header_line(l: Seq<char>) -> bool {
    !starts_with(l, " - "@)
}

/// The report of a comparison as its lines, without their line ends.
pub open spec fn report_lines(c: ComparisonResult, p: Seq<Seq<char>>) -> Seq<Seq<char>> {
    seq![summary_line(c)] + header_block(
        c.missing@.len(),
        " missing"@,
        item_lines(screenshot_names(c.missing@)),
    ) + header_block(c.new@.len(), " new"@, item_lines(screenshot_names(c.new@)))
        + header_block(done_count(c.diff@), " changed"@, changed_item_lines(c.diff@, p))
        + header_block(processing_count(c.diff@), " processing"@, waiting_item_lines(c.diff@))
}

/// One ` - name (percent%)` line for each done comparison, with the
/// percentage text at the same position in `p`.
pub open spec fn changed_lines(d: Seq<ChangedScreenshot>, p: Seq<Seq<char>>) -> Seq<char>
    decreases d.len(),
{
    if d.len() == 0 {
        Seq::empty()
    } else {
        changed_lines(d.drop_last(), p) + if d.last().diff is Done {
            " - "@ + d.last().name@ + " ("@ + p[d.len() - 1] + "%)\n"@
        } else {
            Seq::empty()
        }
    }
}

/// One ` - name` line for each comparison still under way.
pub open spec fn waiting_lines(d: Seq<ChangedScreenshot>) -> Seq<char>
    decreases d.len(),
{
    if d.len() == 0 {
        Seq::empty()
    } else {
        waiting_lines(d.drop_last()) + if d.last().diff is Done {
            Seq::empty()
        } else {
            " - "@ + d.last().name@ + "\n"@
        }
    }
}

/// A section listing screenshots under a count and a label, absent when
/// there are none.
pub open spec fn name_section(s: Seq<Screenshot>, label: Seq<char>) -> Seq<char> {
    if s.len() == 0 {
        Seq::empty()
    } else {
        decimal_text(s.len()) + label + name_lines(screenshot_names(s))
    }
}

/// Every changed screenshot has been compared.
pub open spec fn all_done(d: Seq<ChangedScreenshot>) -> bool {
    forall|i: int| 0 <= i < d.len() ==> #[trigger] d[i].diff is Done
}

/// The report of a comparison: a summary line, then the missing, new,
/// changed and still processing screenshots, each under a count, with the
/// percentage of each changed screenshot taken from `percents`.
pub open spec fn detail_text(c: ComparisonResult, percents: Seq<Seq<char>>) -> Seq<char> {
    let d = c.diff@;
    let done = done_count(d);
    let waiting = (d.len() - done) as nat;
    decimal_text(c.new@.len() + d.len() + c.unchanged@.len()) + " screenshots, "@ + decimal_text(
        c.unchanged@.len(),
    ) + " unchanged\n"@ + name_section(c.missing@, " missing\n"@) + name_section(
        c.new@,
        " new\n"@,
    ) + (if done == 0 {
        Seq::empty()
    } else {
        decimal_text(done) + " changed\n"@ + changed_lines(d, percents)
    }) + (if waiting == 0 {
        Seq::empty()
    } else {
        decimal_text(waiting) + " processing\n"@ + waiting_lines(d)
    })
}

/// The path, relative to the service, of the page that shows a comparison.
pub open spec fn comparison_path(project_id: u128, from: u32, to: u32) -> Seq<char> {
    "project/"@ + uuid_text(project_id) + "/run/"@ + decimal_text(from as nat) + "/compare/"@
        + decimal_text(to as nat)
}

/// The position of the first screenshot called `name`, or the length of the
/// list when there is none.
pub open spec fn first_named(names: Seq<Seq<char>>, name: Seq<char>) -> int
    decreases names.len(),
{
    if names.len() == 0 {
        0
    } else if names[0] == name {
        0
    } else {
        1 + first_named(names.drop_first(), name)
    }
}

/// The first position is found when no earlier name matches.
pub proof fn lemma_first_named(names: Seq<Seq<char>>, name: Seq<char>, i: int)
    requires
        0 <= i <= names.len(),
        forall|j: int| 0 <= j < i ==> names[j] != name,
        i == names.len() || names[i] == name,
    ensures
        first_named(names, name) == i,
    decreases i,
{
    if i > 0 {
        lemma_first_named(names.drop_first(), name, i - 1);
    }
}

/// The names of a list of changed screenshots.
pub open spec fn changed_names(d: Seq<ChangedScreenshot>) -> Seq<Seq<char>> {
    d.map_values(|x: ChangedScreenshot| x.name@)
}

/// The hash of the first screenshot called `name` among the unchanged, new
/// and missing screenshots, in that order, or else among the changed ones.
pub open spec fn hash_of_named(c: ComparisonResult, name: Seq<char>) -> Option<Seq<char>> {
    let listed = c.unchanged@ + c.new@ + c.missing@;
    let i = first_named(screenshot_names(listed), name);
    let j = first_named(changed_names(c.diff@), name);
    if i < listed.len() {
        Some(listed[i].hash@)
    } else if j < c.diff@.len() {
        Some(c.diff@[j].hash@)
    } else {
        None
    }
}

/// The hash and previous hash of the first changed screenshot called `name`.
pub open spec fn change_of_named(c: ComparisonResult, name: Seq<char>) -> Option<
    (Seq<char>, Seq<char>),
> {
    let j = first_named(changed_names(c.diff@), name);
    if j < c.diff@.len() {
        Some((c.diff@[j].hash@, c.diff@[j].previous_hash@))
    } else {
        None
    }
}

/// Appends ` - name` lines for the screenshots.
fn push_name_lines(out: &mut String, s: &Vec<Screenshot>)
    ensures
        final(out)@ == old(out)@ + name_lines(screenshot_names(s@)),
{
    let ghost start = out@;
    let ghost names = screenshot_names(s@);
    let mut i: usize = 0;
    while i < s.len()
        invariant
            i <= s@.len(),
            names == screenshot_names(s@),
            out@ == start + name_lines(names.take(i as int)),
        decreases s@.len() - i,
    {
        out.append(" - ");
        out.append(s[i].name.as_str());
        out.append("\n");
        proof {
            assert(names.take(i + 1).drop_last() =~= names.take(i as int));
            assert(names.take(i + 1).last() == s@[i as int].name@);
        }
        i = i + 1;
    }
    proof {
        assert(names.take(i as int) =~= names);
    }
}

/// Appends a counted section of screenshot names, if there are any.
fn push_name_section(out: &mut String, s: &Vec<Screenshot>, label: &str)
    ensures
        final(out)@ == old(out)@ + name_section(s@, label@),
{
    if s.len() > 0 {
        push_decimal(out, s.len() as u128);
        out.append(label);
        push_name_lines(out, s);
    } else {
        proof {
            assert(old(out)@ + name_section(s@, label@) =~= old(out)@);
        }
    }
}

impl ComparisonResult {
    /// A comparison whose service URL is not known yet.
    pub fn new(
        project_id: u128,
        from: u32,
        to: u32,
        missing: Vec<Screenshot>,
        new: Vec<Screenshot>,
        diff: Vec<ChangedScreenshot>,
        unchanged: Vec<Screenshot>,
    ) -> (r: ComparisonResult)
        ensures
            r.project_id == project_id,
            r.from == from,
            r.to == to,
            r.missing == missing,
            r.new == new,
            r.diff == diff,
            r.unchanged == unchanged,
            r.project_url is None,
    {
        ComparisonResult { project_id, from, to, missing, new, diff, unchanged, project_url: None }
    }

    /// The serialization of the service URL, once known.
    pub open spec fn service_url(&self) -> Option<Seq<char>> {
        text_option(self.project_url)
    }

    /// Whether every changed screenshot has been compared.
    pub fn is_finished(&self) -> (r: bool)
        ensures
            r == all_done(self.diff@),
    {
        let mut i: usize = 0;
        while i < self.diff.len()
            invariant
                i <= self.diff@.len(),
                forall|j: int| 0 <= j < i ==> #[trigger] self.diff@[j].diff is Done,
            decreases self.diff@.len() - i,
        {
            match self.diff[i].diff {
                Difference::Done(_) => {},
                _ => {
                    return false;
                },
            }
            i = i + 1;
        }
        true
    }

    /// The report of the comparison. The percentage of each done changed
    /// screenshot is given, already formatted, at its position in
    /// `percents`.
    pub fn get_detail(&self, percents: &Vec<String>) -> (r: String)
        requires
            percents@.len() == self.diff@.len(),
        ensures
            r@ == detail_text(*self, percents@.map_values(|p: String| p@)),
    {
        let ghost p = percents@.map_values(|p: String| p@);
        let ghost d = self.diff@;
        let mut out = String::new();
        let total: u128 = self.new.len() as u128 + self.diff.len() as u128
            + self.unchanged.len() as u128;
        push_decimal(&mut out, total);
        out.append(" screenshots, ");
        push_decimal(&mut out, self.unchanged.len() as u128);
        out.append(" unchanged\n");
        push_name_section(&mut out, &self.missing, " missing\n");
        push_name_section(&mut out, &self.new, " new\n");
        let ghost before_changes = out@;
        // the changed screenshots whose comparison is done
        let mut done_lines = String::new();
        let mut done: usize = 0;
        let mut waiting_text = String::new();
        let mut waiting: usize = 0;
        let mut i: usize = 0;
        while i < self.diff.len()
            invariant
                i <= d.len(),
                d == self.diff@,
                p == percents@.map_values(|p: String| p@),
                p.len() == d.len(),
                done == done_count(d.take(i as int)),
                waiting + done == i,
                done_lines@ == changed_lines(d.take(i as int), p),
                waiting_text@ == waiting_lines(d.take(i as int)),
            decreases d.len() - i,
        {
            proof {
                assert(d.take(i + 1).drop_last() =~= d.take(i as int));
                assert(d.take(i + 1).last() == d[i as int]);
            }
            match self.diff[i].diff {
                Difference::Done(_) => {
                    done_lines.append(" - ");
                    done_lines.append(self.diff[i].name.as_str());
                    done_lines.append(" (");
                    done_lines.append(percents[i].as_str());
                    done_lines.append("%)\n");
                    done = done + 1;
                },
                _ => {
                    waiting_text.append(" - ");
                    waiting_text.append(self.diff[i].name.as_str());
                    waiting_text.append("\n");
                    waiting = waiting + 1;
                },
            }
            i = i + 1;
        }
        proof {
            assert(d.take(i as int) =~= d);
        }
        if done > 0 {
            push_decimal(&mut out, done as u128);
            out.append(" changed\n");
            out.append(done_lines.as_str());
        }
        if waiting > 0 {
            push_decimal(&mut out, waiting as u128);
            out.append(" processing\n");
            out.append(waiting_text.as_str());
        }
        proof {
            assert(out@ =~= detail_text(*self, p));
        }
        out
    }

    /// The address of the page that shows the comparison.
    pub fn get_url(&self) -> (r: String)
        requires
            self.service_url() is Some,
            url_joined(
                self.service_url()->0,
                comparison_path(self.project_id, self.from, self.to),
            ) is Some,
        ensures
            r@ == url_joined(
                self.service_url()->0,
                comparison_path(self.project_id, self.from, self.to),
            )->0,
    {
        let base = match &self.project_url {
            Some(u) => u,
            None => {
                proof {
                    assert(false);
                }
                return String::new();
            },
        };
        let path = self.comparison_path();
        match join_url(base.as_str(), path.as_str()) {
            Some(u) => u,
            None => {
                proof {
                    assert(false);
                }
                String::new()
            },
        }
    }

    /// The address of the page that shows the comparison, where the service
    /// URL is known and the page's path resolves against it.
    pub fn try_get_url(&self) -> (r: Option<String>)
        ensures
            text_option(r) == match self.service_url() {
                Some(b) => url_joined(b, comparison_path(self.project_id, self.from, self.to)),
                None => None,
            },
    {
        match &self.project_url {
            Some(u) => {
                let path = self.comparison_path();
                match join_url(u.as_str(), path.as_str()) {
                    Some(_) => Some(self.get_url()),
                    None => None,
                }
            },
            None => None,
        }
    }

    /// The path of the page that shows the comparison.
    fn comparison_path(&self) -> (r: String)
        ensures
            r@ == comparison_path(self.project_id, self.from, self.to),
    {
        let mut out = String::new();
        out.append("project/");
        let id = format_uuid(self.project_id);
        out.append(id.as_str());
        out.append("/run/");
        push_decimal(&mut out, self.from as u128);
        out.append("/compare/");
        push_decimal(&mut out, self.to as u128);
        proof {
            assert(out@ =~= comparison_path(self.project_id, self.from, self.to));
        }
        out
    }

    /// The hash of the screenshot called `name`: the first one among the
    /// unchanged, new and missing screenshots, or else among the changed ones.
    pub fn screenshot_hash(&self, name: &str) -> (r: Option<String>)
        ensures
            text_option(r) == hash_of_named(*self, name@),
    {
        let ghost listed = self.unchanged@ + self.new@ + self.missing@;
        let ghost names = screenshot_names(listed);
        let mut i: usize = 0;
        while i < self.unchanged.len()
            invariant
                i <= self.unchanged@.len(),
                listed == self.unchanged@ + self.new@ + self.missing@,
                names == screenshot_names(listed),
                forall|j: int| 0 <= j < i ==> names[j] != name@,
            decreases self.unchanged@.len() - i,
        {
            if crate::text::text_eq(self.unchanged[i].name.as_str(), name) {
                proof {
                    assert(listed[i as int] == self.unchanged@[i as int]);
                    lemma_first_named(names, name@, i as int);
                }
                return Some(self.unchanged[i].hash.clone());
            }
            proof {
                assert(listed[i as int] == self.unchanged@[i as int]);
            }
            i = i + 1;
        }
        let base_new = self.unchanged.len();
        let mut i: usize = 0;
        while i < self.new.len()
            invariant
                i <= self.new@.len(),
                base_new == self.unchanged@.len(),
                listed == self.unchanged@ + self.new@ + self.missing@,
                names == screenshot_names(listed),
                forall|j: int| 0 <= j < base_new + i ==> names[j] != name@,
            decreases self.new@.len() - i,
        {
            if crate::text::text_eq(self.new[i].name.as_str(), name) {
                proof {
                    assert(listed[base_new + i] == self.new@[i as int]);
                    lemma_first_named(names, name@, base_new + i);
                }
                return Some(self.new[i].hash.clone());
            }
            proof {
                assert(listed[base_new + i] == self.new@[i as int]);
            }
            i = i + 1;
        }
        let mut i: usize = 0;
        while i < self.missing.len()
            invariant
                i <= self.missing@.len(),
                base_new == self.unchanged@.len(),
                listed == self.unchanged@ + self.new@ + self.missing@,
                names == screenshot_names(listed),
                forall|j: int|
                    0 <= j < base_new + self.new@.len() + i ==> names[j] != name@,
            decreases self.missing@.len() - i,
        {
            if crate::text::text_eq(self.missing[i].name.as_str(), name) {
                proof {
                    let k = base_new + self.new@.len() + i;
                    assert(listed[k] == self.missing@[i as int]);
                    lemma_first_named(names, name@, k);
                }
                return Some(self.missing[i].hash.clone());
            }
            proof {
                assert(listed[base_new + self.new@.len() + i] == self.missing@[i as int]);
            }
            i = i + 1;
        }
        proof {
            lemma_first_named(names, name@, listed.len() as int);
        }
        match self.changed_screenshot(name) {
            Some((hash, _previous)) => Some(hash),
            None => None,
        }
    }

    /// The hash and previous hash of the first changed screenshot called
    /// `name`.
    pub fn changed_screenshot(&self, name: &str) -> (r: Option<(String, String)>)
        ensures
            match r {
                Some(p) => change_of_named(*self, name@) == Some((p.0@, p.1@)),
                None => change_of_named(*self, name@) is None,
            },
    {
        let ghost names = changed_names(self.diff@);
        let mut i: usize = 0;
        while i < self.diff.len()
            invariant
                i <= self.diff@.len(),
                names == changed_names(self.diff@),
                forall|j: int| 0 <= j < i ==> names[j] != name@,
            decreases self.diff@.len() - i,
        {
            if crate::text::text_eq(self.diff[i].name.as_str(), name) {
                proof {
                    lemma_first_named(names, name@, i as int);
                }
                return Some((self.diff[i].hash.clone(), self.diff[i].previous_hash.clone()));
            }
            i = i + 1;
        }
        proof {
            lemma_first_named(names, name@, i as int);
        }
        None
    }
}

} // verus!
