//! Properties of what a comparison reports and of the screenshots looked up
//! in it.

use vstd::prelude::*;

use crate::text::decimal_text;
use crate::types::{
    change_of_named, changed_lines, changed_names, counted_section, detail_text, done_count,
    hash_of_named, lemma_first_named, name_lines, name_section, processing_count, report_summary,
    screenshot_names, waiting_lines, ChangedScreenshot, ComparisonResult,
};

verus! {

/// The report line of a done screenshot, with its line end.
pub open spec fn done_line(s: ChangedScreenshot, percent: Seq<char>) -> Seq<char> {
    " - "@ + s.name@ + " ("@ + percent + "%)\n"@
}

/// Whether `line` stands in `text` at the start of a line after the first.
pub open spec fn holds_line(text: Seq<char>, line: Seq<char>) -> bool {
    exists|k: int|
        0 < k && k + line.len() <= text.len() && text[k - 1] == '\n' && #[trigger] text.subrange(
            k,
            k + line.len(),
        ) == line
}

/// Some comparison is done where one at `i` is.
proof fn lemma_done_count_positive(d: Seq<ChangedScreenshot>, i: int)
    requires
        0 <= i < d.len(),
        d[i].diff is Done,
    ensures
        done_count(d) > 0,
    decreases d.len(),
{
    if i < d.len() - 1 {
        assert(d.drop_last()[i] == d[i]);
        lemma_done_count_positive(d.drop_last(), i);
    }
}

/// The lines of the done comparisons are empty or end with a line end.
proof fn lemma_changed_lines_end(d: Seq<ChangedScreenshot>, p: Seq<Seq<char>>)
    ensures
        changed_lines(d, p).len() == 0 || changed_lines(d, p).last() == '\n',
    decreases d.len(),
{
    reveal_strlit("%)\n");
    if d.len() > 0 {
        lemma_changed_lines_end(d.drop_last(), p);
    }
}

/// The line of a done comparison stands in the lines of the done
/// comparisons, at a line start, with the percentage at its own position.
proof fn lemma_changed_lines_hold(d: Seq<ChangedScreenshot>, p: Seq<Seq<char>>, i: int)
    requires
        0 <= i < d.len(),
        d[i].diff is Done,
    ensures
        exists|k: int|
            0 <= k && k + done_line(d[i], p[i]).len() <= changed_lines(d, p).len() && (k == 0
                || changed_lines(d, p)[k - 1] == '\n') && #[trigger] changed_lines(d, p).subrange(
                k,
                k + done_line(d[i], p[i]).len(),
            ) == done_line(d[i], p[i]),
    decreases d.len(),
{
    let t = d.drop_last();
    let prev = changed_lines(t, p);
    let whole = changed_lines(d, p);
    let line = done_line(d[i], p[i]);
    if i < d.len() - 1 {
        assert(t[i] == d[i]);
        lemma_changed_lines_hold(t, p, i);
        let k = choose|k: int|
            0 <= k && k + done_line(t[i], p[i]).len() <= changed_lines(t, p).len() && (k == 0
                || changed_lines(t, p)[k - 1] == '\n') && #[trigger] changed_lines(t, p).subrange(
                k,
                k + done_line(t[i], p[i]).len(),
            ) == done_line(t[i], p[i]);
        let rest = whole.skip(prev.len() as int);
        assert(whole =~= prev + rest);
        assert(whole.subrange(k, k + line.len()) =~= prev.subrange(k, k + line.len()));
        if k > 0 {
            assert(whole[k - 1] == prev[k - 1]);
        }
    } else {
        lemma_changed_lines_end(t, p);
        assert(d.last() == d[i]);
        assert(whole =~= prev + line);
        let k = prev.len() as int;
        assert(whole.subrange(k, k + line.len()) =~= line);
        if k > 0 {
            assert(whole[k - 1] == prev[k - 1]);
        }
    }
}

/// The report shows each done screenshot on a line of its own, with the
/// percentage at that screenshot's own position in `percents`.
pub proof fn law_changed_line_shows_own_percentage(
    c: ComparisonResult,
    percents: Seq<Seq<char>>,
    i: int,
)
    requires
        percents.len() == c.diff@.len(),
        0 <= i < c.diff@.len(),
        c.diff@[i].diff is Done,
    ensures
        holds_line(detail_text(c, percents), done_line(c.diff@[i], percents[i])),
{
    let d = c.diff@;
    let p = percents;
    let text = detail_text(c, p);
    let line = done_line(d[i], p[i]);
    let cl = changed_lines(d, p);
    lemma_done_count_positive(d, i);
    lemma_changed_lines_hold(d, p, i);
    let k = choose|k: int|
        0 <= k && k + line.len() <= cl.len() && (k == 0 || cl[k - 1] == '\n')
            && #[trigger] cl.subrange(k, k + line.len()) == line;
    reveal_strlit(" changed\n");
    // the report up to the lines of the done comparisons ends with a line end
    let a = crate::types::report_summary(c) + crate::text::decimal_text(done_count(d))
        + " changed\n"@;
    crate::laws::law_report_counts_changed_screenshots(c, p);
    let b = text.skip((a.len() + cl.len()) as int);
    assert(text =~= a + cl + b);
    assert(a.last() == '\n');
    let at: int = a.len() + k;
    assert(text.subrange(at, at + line.len()) =~= cl.subrange(k, k + line.len()));
    if k == 0 {
        assert(text[at - 1] == a.last());
    } else {
        assert(text[at - 1] == cl[k - 1]);
    }
    assert(0 < at && at + line.len() <= text.len() && text[at - 1] == '\n' && text.subrange(
        at,
        at + line.len(),
    ) == line);
}

/// The screenshots of a comparison that are listed (unchanged, new, then
/// missing), in order.
pub open spec fn listed(c: ComparisonResult) -> Seq<crate::types::Screenshot> {
    c.unchanged@ + c.new@ + c.missing@
}

/// The first listed screenshot called `name` gives its hash.
pub proof fn law_listed_screenshot_hash(c: ComparisonResult, name: Seq<char>, i: int)
    requires
        0 <= i < listed(c).len(),
        listed(c)[i].name@ == name,
        forall|l: int| 0 <= l < i ==> listed(c)[l].name@ != name,
    ensures
        hash_of_named(c, name) == Some(listed(c)[i].hash@),
{
    let names = screenshot_names(listed(c));
    assert forall|l: int| 0 <= l < i implies names[l] != name by {
        assert(names[l] == listed(c)[l].name@);
    }
    lemma_first_named(names, name, i);
}

/// Where no listed screenshot is called `name`, the first changed
/// screenshot called `name` gives its hash, whatever state its comparison
/// is in, and its previous hash.
pub proof fn law_changed_screenshot_hash(c: ComparisonResult, name: Seq<char>, j: int)
    requires
        forall|l: int| 0 <= l < listed(c).len() ==> #[trigger] listed(c)[l].name@ != name,
        0 <= j < c.diff@.len(),
        c.diff@[j].name@ == name,
        forall|l: int| 0 <= l < j ==> #[trigger] c.diff@[l].name@ != name,
    ensures
        hash_of_named(c, name) == Some(c.diff@[j].hash@),
        change_of_named(c, name) == Some((c.diff@[j].hash@, c.diff@[j].previous_hash@)),
{
    let names = screenshot_names(listed(c));
    assert forall|l: int| 0 <= l < names.len() implies names[l] != name by {
        assert(names[l] == listed(c)[l].name@);
    }
    lemma_first_named(names, name, names.len() as int);
    let cn = changed_names(c.diff@);
    assert forall|l: int| 0 <= l < j implies cn[l] != name by {
        assert(cn[l] == c.diff@[l].name@);
    }
    lemma_first_named(cn, name, j);
}

/// A name that no screenshot of the comparison carries gives no hash.
pub proof fn law_unknown_screenshot_has_no_hash(c: ComparisonResult, name: Seq<char>)
    requires
        forall|l: int| 0 <= l < listed(c).len() ==> #[trigger] listed(c)[l].name@ != name,
        forall|l: int| 0 <= l < c.diff@.len() ==> #[trigger] c.diff@[l].name@ != name,
    ensures
        hash_of_named(c, name) is None,
        change_of_named(c, name) is None,
{
    let names = screenshot_names(listed(c));
    assert forall|l: int| 0 <= l < names.len() implies names[l] != name by {
        assert(names[l] == listed(c)[l].name@);
    }
    lemma_first_named(names, name, names.len() as int);
    let cn = changed_names(c.diff@);
    assert forall|l: int| 0 <= l < cn.len() implies cn[l] != name by {
        assert(cn[l] == c.diff@[l].name@);
    }
    lemma_first_named(cn, name, cn.len() as int);
}

/// `line` stands in `text` at `k`, at the start of a line.
spec fn line_at(text: Seq<char>, line: Seq<char>, k: int) -> bool {
    0 <= k && k + line.len() <= text.len() && (k == 0 || text[k - 1] == '\n') && text.subrange(
        k,
        k + line.len(),
    ) == line
}

/// A line at a line start of the middle part of a text whose first part
/// ends a line is a line of the text.
proof fn lemma_lift_line(pre: Seq<char>, mid: Seq<char>, post: Seq<char>, line: Seq<char>, k: int)
    requires
        line_at(mid, line, k),
        pre.len() > 0,
        pre.last() == '\n',
    ensures
        holds_line(pre + mid + post, line),
{
    let text = pre + mid + post;
    let at: int = pre.len() + k;
    assert(text.subrange(at, at + line.len()) =~= mid.subrange(k, k + line.len()));
    if k == 0 {
        assert(text[at - 1] == pre.last());
    } else {
        assert(text[at - 1] == mid[k - 1]);
    }
}

/// The list of names is empty or ends a line.
proof fn lemma_name_lines_end(names: Seq<Seq<char>>)
    ensures
        name_lines(names).len() == 0 || name_lines(names).last() == '\n',
    decreases names.len(),
{
    reveal_strlit("\n");
    if names.len() > 0 {
        lemma_name_lines_end(names.drop_last());
    }
}

/// Each name has its ` - name` line in a list of names.
proof fn lemma_name_lines_hold(names: Seq<Seq<char>>, i: int)
    requires
        0 <= i < names.len(),
    ensures
        exists|k: int| line_at(name_lines(names), " - "@ + names[i] + "\n"@, k),
    decreases names.len(),
{
    let t = names.drop_last();
    let prev = name_lines(t);
    let whole = name_lines(names);
    let line = " - "@ + names[i] + "\n"@;
    if i < names.len() - 1 {
        assert(t[i] == names[i]);
        lemma_name_lines_hold(t, i);
        let k = choose|k: int| line_at(name_lines(t), " - "@ + t[i] + "\n"@, k);
        assert(whole =~= prev + whole.skip(prev.len() as int));
        assert(whole.subrange(k, k + line.len()) =~= prev.subrange(k, k + line.len()));
        if k > 0 {
            assert(whole[k - 1] == prev[k - 1]);
        }
        assert(line_at(whole, line, k));
    } else {
        lemma_name_lines_end(t);
        assert(whole =~= prev + line);
        let k = prev.len() as int;
        assert(whole.subrange(k, k + line.len()) =~= line);
        if k > 0 {
            assert(whole[k - 1] == prev[k - 1]);
        }
        assert(line_at(whole, line, k));
    }
}

/// The list of comparisons under way is empty or ends a line.
proof fn lemma_waiting_lines_end(d: Seq<ChangedScreenshot>)
    ensures
        waiting_lines(d).len() == 0 || waiting_lines(d).last() == '\n',
    decreases d.len(),
{
    reveal_strlit("\n");
    if d.len() > 0 {
        lemma_waiting_lines_end(d.drop_last());
    }
}

/// Each comparison under way has its ` - name` line in their list.
proof fn lemma_waiting_lines_hold(d: Seq<ChangedScreenshot>, i: int)
    requires
        0 <= i < d.len(),
        !(d[i].diff is Done),
    ensures
        exists|k: int| line_at(waiting_lines(d), " - "@ + d[i].name@ + "\n"@, k),
    decreases d.len(),
{
    let t = d.drop_last();
    let prev = waiting_lines(t);
    let whole = waiting_lines(d);
    let line = " - "@ + d[i].name@ + "\n"@;
    if i < d.len() - 1 {
        assert(t[i] == d[i]);
        lemma_waiting_lines_hold(t, i);
        let k = choose|k: int| line_at(waiting_lines(t), " - "@ + t[i].name@ + "\n"@, k);
        assert(whole =~= prev + whole.skip(prev.len() as int));
        assert(whole.subrange(k, k + line.len()) =~= prev.subrange(k, k + line.len()));
        if k > 0 {
            assert(whole[k - 1] == prev[k - 1]);
        }
        assert(line_at(whole, line, k));
    } else {
        lemma_waiting_lines_end(t);
        assert(d.last() == d[i]);
        assert(whole =~= prev + line);
        let k = prev.len() as int;
        assert(whole.subrange(k, k + line.len()) =~= line);
        if k > 0 {
            assert(whole[k - 1] == prev[k - 1]);
        }
        assert(line_at(whole, line, k));
    }
}

/// The first line of the report of a comparison.
pub open spec fn summary_text(c: ComparisonResult) -> Seq<char> {
    decimal_text(c.new@.len() + c.diff@.len() + c.unchanged@.len()) + " screenshots, "@
        + decimal_text(c.unchanged@.len()) + " unchanged\n"@
}

/// The report of a comparison starts with the number of screenshots of
/// the second run (new, changed and unchanged) and the number of unchanged
/// ones.
pub proof fn law_report_starts_with_counts(c: ComparisonResult, percents: Seq<Seq<char>>)
    ensures
        detail_text(c, percents).len() >= summary_text(c).len(),
        detail_text(c, percents).take(summary_text(c).len() as int) == summary_text(c),
{
    crate::laws::law_report_counts_changed_screenshots(c, percents);
    let text = detail_text(c, percents);
    let s = summary_text(c);
    assert(text =~= s + text.skip(s.len() as int));
    assert(text.take(s.len() as int) =~= s);
}

/// A counted section of names after a finished line: its header and each
/// of its names stand on lines of their own.
proof fn lemma_section_lines(
    pre: Seq<char>,
    head: Seq<char>,
    names: Seq<Seq<char>>,
    post: Seq<char>,
)
    requires
        pre.len() > 0,
        pre.last() == '\n',
        head.len() > 0,
        head.last() == '\n',
    ensures
        holds_line(pre + (head + name_lines(names)) + post, head),
        forall|i: int|
            0 <= i < names.len() ==> holds_line(
                pre + (head + name_lines(names)) + post,
                " - "@ + #[trigger] names[i] + "\n"@,
            ),
        (pre + (head + name_lines(names))).last() == '\n',
{
    let sec = head + name_lines(names);
    let text = pre + sec + post;
    assert(line_at(sec, head, 0)) by {
        assert(sec.subrange(0, head.len() as int) =~= head);
    }
    lemma_lift_line(pre, sec, post, head, 0);
    assert forall|i: int| 0 <= i < names.len() implies holds_line(
        text,
        " - "@ + #[trigger] names[i] + "\n"@,
    ) by {
        lemma_name_lines_hold(names, i);
        let line = " - "@ + names[i] + "\n"@;
        let k = choose|k: int| line_at(name_lines(names), line, k);
        assert((pre + head).last() == '\n');
        lemma_lift_line(pre + head, name_lines(names), post, line, k);
        assert(pre + head + name_lines(names) + post =~= text);
    }
    lemma_name_lines_end(names);
    if name_lines(names).len() == 0 {
        assert(pre + sec =~= pre + head);
    } else {
        assert((pre + sec).last() == name_lines(names).last());
    }
}

/// Every missing screenshot is listed in the report on a line of its own,
/// under a header line that counts them.
pub proof fn law_report_lists_missing(c: ComparisonResult, percents: Seq<Seq<char>>)
    ensures
        forall|i: int|
            0 <= i < c.missing@.len() ==> holds_line(
                detail_text(c, percents),
                " - "@ + #[trigger] c.missing@[i].name@ + "\n"@,
            ),
        c.missing@.len() > 0 ==> holds_line(
            detail_text(c, percents),
            decimal_text(c.missing@.len()) + " missing\n"@,
        ),
{
    crate::laws::law_report_counts_changed_screenshots(c, percents);
    reveal_strlit(" unchanged\n");
    reveal_strlit(" missing\n");
    let text = detail_text(c, percents);
    let s = summary_text(c);
    let ms = name_section(c.missing@, " missing\n"@);
    let tail = text.skip((s.len() + ms.len()) as int);
    assert(text =~= s + ms + tail);
    assert(s.last() == '\n');
    let mnames = screenshot_names(c.missing@);
    if c.missing@.len() > 0 {
        let head = decimal_text(c.missing@.len()) + " missing\n"@;
        assert(ms =~= head + name_lines(mnames));
        lemma_section_lines(s, head, mnames, tail);
        assert forall|i: int| 0 <= i < c.missing@.len() implies holds_line(
            text,
            " - "@ + #[trigger] c.missing@[i].name@ + "\n"@,
        ) by {
            assert(mnames[i] == c.missing@[i].name@);
        }
    }
}

/// Every new screenshot is listed in the report on a line of its own,
/// under a header line that counts them.
pub proof fn law_report_lists_new(c: ComparisonResult, percents: Seq<Seq<char>>)
    ensures
        forall|i: int|
            0 <= i < c.new@.len() ==> holds_line(
                detail_text(c, percents),
                " - "@ + #[trigger] c.new@[i].name@ + "\n"@,
            ),
        c.new@.len() > 0 ==> holds_line(
            detail_text(c, percents),
            decimal_text(c.new@.len()) + " new\n"@,
        ),
{
    crate::laws::law_report_counts_changed_screenshots(c, percents);
    reveal_strlit(" unchanged\n");
    reveal_strlit(" missing\n");
    reveal_strlit(" new\n");
    let text = detail_text(c, percents);
    let s = summary_text(c);
    let ms = name_section(c.missing@, " missing\n"@);
    let ns = name_section(c.new@, " new\n"@);
    let tail = text.skip((s.len() + ms.len() + ns.len()) as int);
    assert(text =~= s + ms + ns + tail);
    assert(s.last() == '\n');
    let mnames = screenshot_names(c.missing@);
    let nnames = screenshot_names(c.new@);
    let pre = s + ms;
    assert(pre.len() > 0 && pre.last() == '\n') by {
        if c.missing@.len() > 0 {
            let head = decimal_text(c.missing@.len()) + " missing\n"@;
            assert(ms =~= head + name_lines(mnames));
            lemma_section_lines(s, head, mnames, Seq::<char>::empty());
        } else {
            assert(pre =~= s);
        }
    }
    if c.new@.len() > 0 {
        let head = decimal_text(c.new@.len()) + " new\n"@;
        assert(ns =~= head + name_lines(nnames));
        lemma_section_lines(pre, head, nnames, tail);
        assert forall|i: int| 0 <= i < c.new@.len() implies holds_line(
            text,
            " - "@ + #[trigger] c.new@[i].name@ + "\n"@,
        ) by {
            assert(nnames[i] == c.new@[i].name@);
        }
    }
}

/// Every changed screenshot whose comparison is under way is listed in the
/// report on a line of its own.
pub proof fn law_report_lists_processing(c: ComparisonResult, percents: Seq<Seq<char>>, i: int)
    requires
        0 <= i < c.diff@.len(),
        !(c.diff@[i].diff is Done),
    ensures
        holds_line(detail_text(c, percents), " - "@ + c.diff@[i].name@ + "\n"@),
{
    let d = c.diff@;
    crate::laws::law_report_counts_changed_screenshots(c, percents);
    crate::laws::law_finished_report_counts_all_changed(d);
    reveal_strlit(" processing\n");
    let text = detail_text(c, percents);
    let proc = processing_count(d);
    assert(proc > 0);
    let pre = report_summary(c) + counted_section(done_count(d), " changed\n"@, changed_lines(d, percents))
        + decimal_text(proc) + " processing\n"@;
    assert(text =~= pre + waiting_lines(d) + Seq::<char>::empty());
    assert(pre.last() == '\n');
    lemma_waiting_lines_hold(d, i);
    let line = " - "@ + d[i].name@ + "\n"@;
    let k = choose|k: int| line_at(waiting_lines(d), line, k);
    lemma_lift_line(pre, waiting_lines(d), Seq::<char>::empty(), line, k);
}

} // verus!
