//! Properties of the library that span several functions or hold of every
//! input, proved over the models that the functions' contracts use.

use vstd::prelude::*;

use crate::cli::{compare_metadata, key_value_spec, CommandModel};
use crate::grammar::{parse_spec, read_all, step, ParseModel};
use crate::retry::{
    backoff_ms, give_up_text, pow2, retry_step, retryable_status, OutcomeModel, RetryModel,
    StepModel, MAX_RETRIES,
};
use crate::string_map::pairs_map;
use crate::types::{
    all_done, changed_item_lines, changed_lines, counted_section, detail_text, done_count,
    header_block, is_header_line, item_lines, name_lines, name_section, processing_count, report_lines,
    report_summary, screenshot_names, summary_line, waiting_item_lines, waiting_lines,
    ChangedScreenshot, ComparisonResult,
};
use crate::text::{
    ends_with, joined_lines, no_newline, starts_with,
    all_digits, count_char, decimal_text, digit_char, digit_value, digits_value, find_char,
    is_digit, lemma_count_char_absent, unsigned_part, lemma_find_char, lemma_find_char_bounds, u32_text_value,
};

verus! {

/// The occurrences of a character in two joined texts add up.
proof fn lemma_count_char_concat(a: Seq<char>, b: Seq<char>, c: char)
    ensures
        count_char(a + b, c) == count_char(a, c) + count_char(b, c),
    decreases b.len(),
{
    if b.len() > 0 {
        lemma_count_char_concat(a, b.drop_last(), c);
        assert((a + b).drop_last() =~= a + b.drop_last());
    } else {
        assert(a + b =~= a);
    }
}

/// A one-character text holds that character once.
proof fn lemma_count_char_single(c: char)
    ensures
        count_char(seq![c], c) == 1,
{
    assert(seq![c].drop_last() =~= Seq::<char>::empty());
    assert(count_char(Seq::<char>::empty(), c) == 0);
}

/// A text in which a character occurs no time does not hold it.
proof fn lemma_count_char_zero(s: Seq<char>, c: char)
    requires
        count_char(s, c) == 0,
    ensures
        forall|j: int| 0 <= j < s.len() ==> s[j] != c,
    decreases s.len(),
{
    if s.len() > 0 {
        lemma_count_char_zero(s.drop_last(), c);
        assert forall|j: int| 0 <= j < s.len() implies s[j] != c by {
            if j < s.len() - 1 {
                assert(s[j] == s.drop_last()[j]);
            }
        }
    }
}

/// Reading `key:value` back: a key and a value without `:` joined by one
/// `:` read as that key and that value.
pub proof fn law_key_value_round_trip(key: Seq<char>, value: Seq<char>)
    requires
        count_char(key, ':') == 0,
        count_char(value, ':') == 0,
    ensures
        key_value_spec(key + seq![':'] + value) == Ok::<(Seq<char>, Seq<char>), Seq<char>>(
            (key, value),
        ),
{
    let s = key + seq![':'] + value;
    lemma_count_char_concat(key + seq![':'], value, ':');
    lemma_count_char_concat(key, seq![':'], ':');
    lemma_count_char_single(':');
    lemma_count_char_zero(key, ':');
    assert forall|j: int| 0 <= j < key.len() implies s[j] != ':' by {
        assert(s[j] == key[j]);
    }
    lemma_find_char(s, ':', key.len() as int);
    assert(s.take(key.len() as int) =~= key);
    assert(s.skip(key.len() as int + 1) =~= value);
}

/// What `key_value` accepts is a key and a value, neither holding `:`,
/// that joined by `:` give back the argument.
pub proof fn law_key_value_rejoins(s: Seq<char>)
    ensures
        key_value_spec(s) matches Ok(p) ==> {
            &&& p.0 + seq![':'] + p.1 == s
            &&& count_char(p.0, ':') == 0
            &&& count_char(p.1, ':') == 0
        },
{
    if count_char(s, ':') == 1 {
        let k = find_char(s, ':');
        lemma_find_char_bounds(s, ':');
        if k == s.len() {
            lemma_count_char_absent(s, ':');
        }
        assert(s.take(k) + seq![':'] + s.skip(k + 1) =~= s);
        lemma_count_char_absent(s.take(k), ':');
        lemma_count_char_concat(s.take(k) + seq![':'], s.skip(k + 1), ':');
        lemma_count_char_concat(s.take(k), seq![':'], ':');
        lemma_count_char_single(':');
    }
}

/// `compare-run` compares with one given run or with the runs that
/// metadata selects, never both: a run ID excludes `--filter` and `--same`,
/// and at least one of the three is given.
pub proof fn law_compare_target_exclusive(args: Seq<Seq<char>>, env_token: Option<Seq<char>>)
    ensures
        parse_spec(args, env_token) matches Ok(c) ==> (c.command matches CommandModel::CompareRun {
            with,
            ..
        } ==> {
            &&& with.with_run is Some ==> with.filter.len() == 0 && with.same.len() == 0
            &&& with.with_run is Some || with.filter.len() > 0 || with.same.len() > 0
        }),
{
}

/// Every filter read so far is a key and a value without `:`.
spec fn filters_split(st: ParseModel) -> bool {
    forall|i: int|
        0 <= i < st.filter.len() ==> count_char(#[trigger] st.filter[i].0, ':') == 0 && count_char(
            st.filter[i].1,
            ':',
        ) == 0
}

/// Reading one more argument keeps the filters split.
proof fn lemma_step_keeps_filters_split(st: ParseModel, a: Seq<char>)
    requires
        filters_split(st),
    ensures
        filters_split(step(st, a)),
{
    assert forall|x: Seq<char>| #[trigger] key_value_spec(x) is Ok implies count_char(
        key_value_spec(x)->Ok_0.0,
        ':',
    ) == 0 && count_char(key_value_spec(x)->Ok_0.1, ':') == 0 by {
        law_key_value_rejoins(x);
    }
    let st2 = step(st, a);
    assert forall|i: int| 0 <= i < st2.filter.len() implies count_char(
        #[trigger] st2.filter[i].0,
        ':',
    ) == 0 && count_char(st2.filter[i].1, ':') == 0 by {
        if i < st.filter.len() && st2.filter[i] == st.filter[i] {
        }
    }
}

/// Reading any arguments keeps the filters split.
proof fn lemma_read_all_filters_split(args: Seq<Seq<char>>)
    ensures
        filters_split(read_all(args)),
    decreases args.len(),
{
    if args.len() > 0 {
        lemma_read_all_filters_split(args.drop_last());
        lemma_step_keeps_filters_split(read_all(args.drop_last()), args.last());
    }
}

/// Each `--filter` of a parsed `compare-run` is a key and a value, neither
/// holding `:`.
pub proof fn law_filters_are_key_value_pairs(args: Seq<Seq<char>>, env_token: Option<Seq<char>>)
    ensures
        parse_spec(args, env_token) matches Ok(c) ==> (c.command matches CommandModel::CompareRun {
            with,
            ..
        } ==> forall|i: int|
            0 <= i < with.filter.len() ==> count_char(#[trigger] with.filter[i].0, ':') == 0
                && count_char(with.filter[i].1, ':') == 0),
{
    let rest = if args.len() > 0 {
        args.drop_first()
    } else {
        args
    };
    lemma_read_all_filters_split(rest);
    let st = read_all(rest);
    match parse_spec(args, env_token) {
        Ok(c) => match c.command {
            CommandModel::CompareRun { with, .. } => {
                assert(with.filter == st.filter);
                assert(filters_split(st));
            },
            _ => {},
        },
        Err(_) => {},
    }
}

/// The token given on the command line takes precedence: where `--token`
/// was read, the environment does not change the outcome.
pub proof fn law_token_argument_first(
    args: Seq<Seq<char>>,
    env_a: Option<Seq<char>>,
    env_b: Option<Seq<char>>,
)
    requires
        read_all(
            if args.len() > 0 {
                args.drop_first()
            } else {
                args
            },
        ).token is Some,
    ensures
        parse_spec(args, env_a) == parse_spec(args, env_b),
{
}

/// A digit character is a digit and has its value.
proof fn lemma_digit_char(d: int)
    requires
        0 <= d < 10,
    ensures
        is_digit(digit_char(d)),
        digit_value(digit_char(d)) == d,
{
    if d == 0 {
        assert('0' as int - '0' as int == 0);
    } else if d == 1 {
        assert('1' as int - '0' as int == 1);
    } else if d == 2 {
        assert('2' as int - '0' as int == 2);
    } else if d == 3 {
        assert('3' as int - '0' as int == 3);
    } else if d == 4 {
        assert('4' as int - '0' as int == 4);
    } else if d == 5 {
        assert('5' as int - '0' as int == 5);
    } else if d == 6 {
        assert('6' as int - '0' as int == 6);
    } else if d == 7 {
        assert('7' as int - '0' as int == 7);
    } else if d == 8 {
        assert('8' as int - '0' as int == 8);
    } else {
        assert('9' as int - '0' as int == 9);
    }
}

/// The digits of a number's decimal text spell that number.
proof fn lemma_decimal_digits(n: nat)
    ensures
        decimal_text(n).len() > 0,
        all_digits(decimal_text(n)),
        digits_value(decimal_text(n)) == n,
    decreases n,
{
    lemma_digit_char((n % 10) as int);
    if n >= 10 {
        lemma_decimal_digits(n / 10);
        let t = decimal_text(n);
        assert(t.drop_last() =~= decimal_text(n / 10));
        assert(t.last() == digit_char((n % 10) as int));
        assert(digits_value(t) == digits_value(t.drop_last()) * 10 + digit_value(t.last()));
        assert(n == (n / 10) * 10 + n % 10);
        assert forall|i: int| 0 <= i < t.len() implies #[trigger] is_digit(t[i]) by {
            if i < t.len() - 1 {
                assert(t[i] == decimal_text(n / 10)[i]);
            }
        }
    } else {
        let t = decimal_text(n);
        assert(t.drop_last() =~= Seq::<char>::empty());
        assert(digits_value(Seq::<char>::empty()) == 0);
        assert(t.last() == digit_char(n as int));
        assert(digits_value(t) == digits_value(t.drop_last()) * 10 + digit_value(t.last()));
    }
}

/// Reading back a written number: the decimal text of a `u32` reads as that
/// `u32`.
pub proof fn law_u32_text_round_trip(n: u32)
    ensures
        u32_text_value(decimal_text(n as nat)) == Some(n),
{
    lemma_decimal_digits(n as nat);
    let t = decimal_text(n as nat);
    assert(t[0] != '+' && t[0] != '-') by {
        assert(is_digit(t[0]));
    }
    assert(unsigned_part(t) == t);
}

/// The map sends a key to the value of the last pair that carries it.
pub proof fn lemma_pairs_map_last(s: Seq<(Seq<char>, Seq<char>)>, i: int)
    requires
        0 <= i < s.len(),
        forall|j: int| i < j < s.len() ==> s[j].0 != s[i].0,
    ensures
        pairs_map(s).dom().contains(s[i].0),
        pairs_map(s)[s[i].0] == s[i].1,
    decreases s.len(),
{
    if i < s.len() - 1 {
        let t = s.drop_last();
        assert(t[i] == s[i]);
        assert forall|j: int| i < j < t.len() implies t[j].0 != t[i].0 by {
            assert(t[j] == s[j]);
        }
        lemma_pairs_map_last(t, i);
    }
}

/// In the metadata that selects the run to compare with, a `--same` key
/// asks for an equal value, whatever the filters say of it.
pub proof fn law_same_key_asks_equal(
    filter: Seq<(Seq<char>, Seq<char>)>,
    same: Seq<Seq<char>>,
    i: int,
)
    requires
        0 <= i < same.len(),
    ensures
        compare_metadata(filter, same).dom().contains(same[i]),
        compare_metadata(filter, same)[same[i]] == "<equal>"@,
{
    let sp = same.map_values(|k: Seq<char>| (k, "<equal>"@));
    let all = filter + sp;
    let k = same[i];
    // the last `same` entry with this key decides
    let last = last_occurrence(same, k, i);
    let idx = filter.len() + last;
    assert(all[idx] == (k, "<equal>"@));
    assert forall|j: int| idx < j < all.len() implies all[j].0 != all[idx].0 by {
        assert(all[j] == sp[j - filter.len()]);
    }
    lemma_pairs_map_last(all, idx);
}

/// The last position at or after `i` where `k` occurs, given that it
/// occurs at `i`.
proof fn last_occurrence(s: Seq<Seq<char>>, k: Seq<char>, i: int) -> (j: int)
    requires
        0 <= i < s.len(),
        s[i] == k,
    ensures
        i <= j < s.len(),
        s[j] == k,
        forall|l: int| j < l < s.len() ==> s[l] != k,
    decreases s.len() - i,
{
    if exists|j: int| i < j < s.len() && s[j] == k {
        let j = choose|j: int| i < j < s.len() && s[j] == k;
        last_occurrence(s, k, j)
    } else {
        i
    }
}

/// In the metadata that selects the run to compare with, a filter key that
/// no `--same` names keeps the value of its last filter.
pub proof fn law_filter_key_keeps_last_value(
    filter: Seq<(Seq<char>, Seq<char>)>,
    same: Seq<Seq<char>>,
    i: int,
)
    requires
        0 <= i < filter.len(),
        forall|j: int| i < j < filter.len() ==> filter[j].0 != filter[i].0,
        forall|j: int| 0 <= j < same.len() ==> same[j] != filter[i].0,
    ensures
        compare_metadata(filter, same).dom().contains(filter[i].0),
        compare_metadata(filter, same)[filter[i].0] == filter[i].1,
{
    let sp = same.map_values(|k: Seq<char>| (k, "<equal>"@));
    let all = filter + sp;
    assert(all[i] == filter[i]);
    assert forall|j: int| i < j < all.len() implies all[j].0 != all[i].0 by {
        if j < filter.len() {
            assert(all[j] == filter[j]);
        } else {
            assert(all[j] == sp[j - filter.len()]);
        }
    }
    lemma_pairs_map_last(all, i);
}

/// A reply that is not worth retrying is handed over at once, and the
/// state does not change.
pub proof fn law_retry_delivers_final_replies(st: RetryModel, status: u16)
    requires
        !retryable_status(status),
    ensures
        retry_step(st, OutcomeModel::Status(status)) == (st, StepModel::Deliver),
{
}

/// The retries stay within their budget: from a state within it, any
/// outcome leads to a state within it, and each wait adds exactly one retry.
pub proof fn law_retry_budget(st: RetryModel, outcome: OutcomeModel)
    requires
        st.attempt <= MAX_RETRIES,
    ensures
        retry_step(st, outcome).0.attempt <= MAX_RETRIES,
        retry_step(st, outcome).1 is Wait ==> retry_step(st, outcome).0.attempt == st.attempt + 1,
{
}

/// Four failures in a row: three waits of 1, 2 and 4 seconds, then the
/// request is given up with the last error.
pub proof fn law_retry_gives_up_after_four_sends(errors: Seq<Seq<char>>)
    requires
        errors.len() == 4,
    ensures
        ({
            let s0 = RetryModel { attempt: 0, last_error: None };
            let r1 = retry_step(s0, OutcomeModel::Transient(errors[0]));
            let r2 = retry_step(r1.0, OutcomeModel::Transient(errors[1]));
            let r3 = retry_step(r2.0, OutcomeModel::Transient(errors[2]));
            let r4 = retry_step(r3.0, OutcomeModel::Transient(errors[3]));
            &&& r1.1 matches StepModel::Wait { backoff_ms, .. } && backoff_ms == 1000
            &&& r2.1 matches StepModel::Wait { backoff_ms, .. } && backoff_ms == 2000
            &&& r3.1 matches StepModel::Wait { backoff_ms, .. } && backoff_ms == 4000
            &&& r4.1 == StepModel::Abort(give_up_text(errors[3]))
        }),
{
    assert(pow2(0) == 1);
    assert(pow2(1) == 2);
    assert(pow2(2) == 4);
    assert(backoff_ms(1) == 1000);
    assert(backoff_ms(2) == 2000);
    assert(backoff_ms(3) == 4000);
}

/// After a key is stored, reading it gives the stored value and every
/// other key reads as before.
pub proof fn law_read_after_store(s: Seq<(Seq<char>, Seq<char>)>, k: Seq<char>, v: Seq<char>, other: Seq<char>)
    requires
        other != k,
    ensures
        pairs_map(s.push((k, v)))[k] == v,
        pairs_map(s.push((k, v))).dom().contains(other) == pairs_map(s).dom().contains(other),
        pairs_map(s.push((k, v)))[other] == pairs_map(s)[other],
{
    assert(s.push((k, v)).drop_last() =~= s);
}

/// A comparison is finished exactly when its report counts every changed
/// screenshot as changed and none as still processing.
pub proof fn law_finished_report_counts_all_changed(d: Seq<ChangedScreenshot>)
    ensures
        done_count(d) <= d.len(),
        all_done(d) <==> done_count(d) == d.len(),
    decreases d.len(),
{
    if d.len() > 0 {
        let t = d.drop_last();
        law_finished_report_counts_all_changed(t);
        if all_done(d) {
            assert forall|i: int| 0 <= i < t.len() implies #[trigger] t[i].diff is Done by {
                assert(t[i] == d[i]);
            }
            assert(d[d.len() - 1].diff is Done);
        }
        if done_count(d) == d.len() {
            assert(d.last().diff is Done);
            assert forall|i: int| 0 <= i < d.len() implies #[trigger] d[i].diff is Done by {
                if i < d.len() - 1 {
                    assert(t[i] == d[i]);
                    assert(t[i].diff is Done);
                }
            }
        }
    }
}

/// Every changed screenshot is counted once: as done or as under way.
proof fn lemma_counts_add_up(d: Seq<ChangedScreenshot>)
    ensures
        done_count(d) + processing_count(d) == d.len(),
    decreases d.len(),
{
    if d.len() > 0 {
        lemma_counts_add_up(d.drop_last());
    }
}

/// The report of a comparison ends with a "changed" section counting the
/// done screenshots and a "processing" section counting those still under
/// way; the two counts add up to the number of changed screenshots, and the
/// "processing" section is there exactly when the comparison is not
/// finished.
pub proof fn law_report_counts_changed_screenshots(c: ComparisonResult, percents: Seq<Seq<char>>)
    ensures
        detail_text(c, percents) == report_summary(c) + counted_section(
            done_count(c.diff@),
            " changed\n"@,
            changed_lines(c.diff@, percents),
        ) + counted_section(processing_count(c.diff@), " processing\n"@, waiting_lines(c.diff@)),
        done_count(c.diff@) + processing_count(c.diff@) == c.diff@.len(),
        !all_done(c.diff@) <==> processing_count(c.diff@) > 0,
        !all_done(c.diff@) <==> counted_section(
            processing_count(c.diff@),
            " processing\n"@,
            waiting_lines(c.diff@),
        ).len() > 0,
{
    let d = c.diff@;
    lemma_counts_add_up(d);
    law_finished_report_counts_all_changed(d);
    reveal_strlit(" processing\n");
    assert(detail_text(c, percents) =~= report_summary(c) + counted_section(
        done_count(d),
        " changed\n"@,
        changed_lines(d, percents),
    ) + counted_section(processing_count(d), " processing\n"@, waiting_lines(d)));
}

/// Joining two lists of lines joins their texts.
proof fn lemma_joined_add(a: Seq<Seq<char>>, b: Seq<Seq<char>>)
    ensures
        joined_lines(a + b) == joined_lines(a) + joined_lines(b),
    decreases b.len(),
{
    if b.len() == 0 {
        assert(a + b =~= a);
        assert(joined_lines(a) + joined_lines(b) =~= joined_lines(a));
    } else {
        lemma_joined_add(a, b.drop_last());
        assert((a + b).drop_last() =~= a + b.drop_last());
        assert((a + b).last() == b.last());
        assert(joined_lines(a + b) =~= joined_lines(a) + joined_lines(b));
    }
}

/// One line, joined, is that line and a line end.
proof fn lemma_joined_one(l: Seq<char>)
    ensures
        joined_lines(seq![l]) == l + seq!['\n'],
{
    assert(seq![l].drop_last() =~= Seq::<Seq<char>>::empty());
    assert(joined_lines(Seq::<Seq<char>>::empty()) == Seq::<char>::empty());
    assert(joined_lines(seq![l]) =~= l + seq!['\n']);
}

/// The ` - name` lines of names, joined, are the report's list of names.
proof fn lemma_item_lines(names: Seq<Seq<char>>)
    ensures
        joined_lines(item_lines(names)) == name_lines(names),
    decreases names.len(),
{
    reveal_strlit("\n");
    if names.len() > 0 {
        lemma_item_lines(names.drop_last());
        assert(item_lines(names).drop_last() =~= item_lines(names.drop_last()));
        assert(joined_lines(item_lines(names)) =~= name_lines(names));
    } else {
        assert(item_lines(names) =~= Seq::<Seq<char>>::empty());
    }
}

/// The lines of the done comparisons, joined, are their part of the report.
proof fn lemma_changed_item_lines(d: Seq<ChangedScreenshot>, p: Seq<Seq<char>>)
    ensures
        joined_lines(changed_item_lines(d, p)) == changed_lines(d, p),
    decreases d.len(),
{
    reveal_strlit("%)\n");
    reveal_strlit("%)");
    if d.len() > 0 {
        lemma_changed_item_lines(d.drop_last(), p);
        let last = if d.last().diff is Done {
            seq![" - "@ + d.last().name@ + " ("@ + p[d.len() - 1] + "%)"@]
        } else {
            Seq::empty()
        };
        lemma_joined_add(changed_item_lines(d.drop_last(), p), last);
        if d.last().diff is Done {
            let l = " - "@ + d.last().name@ + " ("@ + p[d.len() - 1] + "%)"@;
            lemma_joined_one(l);
            assert("%)"@ + seq!['\n'] =~= "%)\n"@);
            assert(joined_lines(last) =~= " - "@ + d.last().name@ + " ("@ + p[d.len() - 1]
                + "%)\n"@);
        } else {
            assert(last =~= Seq::<Seq<char>>::empty());
            assert(joined_lines(last) =~= Seq::<char>::empty());
        }
        assert(joined_lines(changed_item_lines(d, p)) =~= changed_lines(d, p));
    }
}

/// The lines of the comparisons under way, joined, are their part of the
/// report.
proof fn lemma_waiting_item_lines(d: Seq<ChangedScreenshot>)
    ensures
        joined_lines(waiting_item_lines(d)) == waiting_lines(d),
    decreases d.len(),
{
    reveal_strlit("\n");
    if d.len() > 0 {
        lemma_waiting_item_lines(d.drop_last());
        let last = if d.last().diff is Done {
            Seq::empty()
        } else {
            seq![" - "@ + d.last().name@]
        };
        lemma_joined_add(waiting_item_lines(d.drop_last()), last);
        if d.last().diff is Done {
            assert(last =~= Seq::<Seq<char>>::empty());
            assert(joined_lines(last) =~= Seq::<char>::empty());
        } else {
            lemma_joined_one(" - "@ + d.last().name@);
            assert("\n"@ =~= seq!['\n']);
            assert(joined_lines(last) =~= " - "@ + d.last().name@ + "\n"@);
        }
        assert(joined_lines(waiting_item_lines(d)) =~= waiting_lines(d));
    }
}

/// A block of lines, joined, is a counted section of the report.
proof fn lemma_header_block(n: nat, label: Seq<char>, items: Seq<Seq<char>>)
    ensures
        joined_lines(header_block(n, label, items)) == counted_section(
            n,
            label + seq!['\n'],
            joined_lines(items),
        ),
{
    if n == 0 {
        assert(header_block(n, label, items) =~= Seq::<Seq<char>>::empty());
    } else {
        let h = seq![decimal_text(n) + label];
        lemma_joined_add(h, items);
        lemma_joined_one(decimal_text(n) + label);
        assert(joined_lines(header_block(n, label, items)) =~= counted_section(
            n,
            label + seq!['\n'],
            joined_lines(items),
        ));
    }
}

/// The report's lines, each followed by a line end, make up the report.
proof fn lemma_report_joined(c: ComparisonResult, p: Seq<Seq<char>>)
    ensures
        joined_lines(report_lines(c, p)) == detail_text(c, p),
{
    let d = c.diff@;
    let s0 = seq![summary_line(c)];
    let b1 = header_block(c.missing@.len(), " missing"@, item_lines(screenshot_names(c.missing@)));
    let b2 = header_block(c.new@.len(), " new"@, item_lines(screenshot_names(c.new@)));
    let b3 = header_block(done_count(d), " changed"@, changed_item_lines(d, p));
    let b4 = header_block(processing_count(d), " processing"@, waiting_item_lines(d));
    lemma_joined_add(s0, b1);
    lemma_joined_add(s0 + b1, b2);
    lemma_joined_add(s0 + b1 + b2, b3);
    lemma_joined_add(s0 + b1 + b2 + b3, b4);
    lemma_joined_one(summary_line(c));
    lemma_header_block(c.missing@.len(), " missing"@, item_lines(screenshot_names(c.missing@)));
    lemma_header_block(c.new@.len(), " new"@, item_lines(screenshot_names(c.new@)));
    lemma_header_block(done_count(d), " changed"@, changed_item_lines(d, p));
    lemma_header_block(processing_count(d), " processing"@, waiting_item_lines(d));
    lemma_item_lines(screenshot_names(c.missing@));
    lemma_item_lines(screenshot_names(c.new@));
    lemma_changed_item_lines(d, p);
    lemma_waiting_item_lines(d);
    law_report_counts_changed_screenshots(c, p);
    reveal_strlit(" missing");
    reveal_strlit(" missing\n");
    reveal_strlit(" new");
    reveal_strlit(" new\n");
    reveal_strlit(" changed");
    reveal_strlit(" changed\n");
    reveal_strlit(" processing");
    reveal_strlit(" processing\n");
    reveal_strlit(" unchanged");
    reveal_strlit(" unchanged\n");
    assert(" missing"@ + seq!['\n'] =~= " missing\n"@);
    assert(" new"@ + seq!['\n'] =~= " new\n"@);
    assert(" changed"@ + seq!['\n'] =~= " changed\n"@);
    assert(" processing"@ + seq!['\n'] =~= " processing\n"@);
    assert(name_section(c.missing@, " missing\n"@) == counted_section(
        c.missing@.len(),
        " missing\n"@,
        name_lines(screenshot_names(c.missing@)),
    ));
    assert(name_section(c.new@, " new\n"@) == counted_section(
        c.new@.len(),
        " new\n"@,
        name_lines(screenshot_names(c.new@)),
    ));
    assert(summary_line(c) + seq!['\n'] =~= decimal_text(
        c.new@.len() + c.diff@.len() + c.unchanged@.len(),
    ) + " screenshots, "@ + decimal_text(c.unchanged@.len()) + " unchanged\n"@);
    assert(joined_lines(report_lines(c, p)) =~= detail_text(c, p));
}

/// A line of the report that lists one screenshot: it starts with ` - `
/// and holds no line end.
spec fn item_line(l: Seq<char>) -> bool {
    starts_with(l, " - "@) && no_newline(l)
}

/// Two texts without line ends join into one.
proof fn lemma_no_newline_add(a: Seq<char>, b: Seq<char>)
    requires
        no_newline(a),
        no_newline(b),
    ensures
        no_newline(a + b),
{
    assert forall|i: int| 0 <= i < (a + b).len() implies (a + b)[i] != '\n' by {
        if i < a.len() {
            assert((a + b)[i] == a[i]);
        } else {
            assert((a + b)[i] == b[i - a.len()]);
        }
    }
}

/// A number's decimal text holds no line end and starts with a digit.
proof fn lemma_decimal_line(n: nat, label: Seq<char>)
    ensures
        no_newline(decimal_text(n)),
        !starts_with(decimal_text(n) + label, " - "@),
{
    lemma_decimal_digits(n);
    let t = decimal_text(n);
    assert forall|i: int| 0 <= i < t.len() implies t[i] != '\n' by {
        assert(is_digit(t[i]));
    }
    reveal_strlit(" - ");
    if starts_with(t + label, " - "@) {
        assert((t + label).take(3)[0] == (t + label)[0]);
        assert((t + label)[0] == t[0]);
        assert(is_digit(t[0]));
    }
}

/// A text ends with what was joined last to it.
proof fn lemma_ends_self(x: Seq<char>, t: Seq<char>)
    ensures
        ends_with(x + t, t),
{
    assert((x + t).skip((x + t).len() - t.len()) =~= t);
}

/// A text does not end with `b` when, counting from the end, the part `a`
/// joined last to it differs from `b` at place `j`.
proof fn lemma_not_ends(x: Seq<char>, a: Seq<char>, b: Seq<char>, j: int)
    requires
        0 <= j < a.len(),
        j < b.len(),
        a[a.len() - 1 - j] != b[b.len() - 1 - j],
    ensures
        !ends_with(x + a, b),
{
    let s = x + a;
    if ends_with(s, b) {
        let k = b.len() - 1 - j;
        assert(s.skip(s.len() - b.len())[k] == s[s.len() - 1 - j]);
        assert(s[s.len() - 1 - j] == a[a.len() - 1 - j]);
    }
}

/// The ` - name` lines of names without line ends are item lines.
proof fn lemma_item_lines_shape(names: Seq<Seq<char>>)
    requires
        forall|i: int| 0 <= i < names.len() ==> no_newline(#[trigger] names[i]),
    ensures
        forall|i: int| 0 <= i < names.len() ==> item_line(#[trigger] item_lines(names)[i]),
{
    reveal_strlit(" - ");
    assert forall|i: int| 0 <= i < names.len() implies item_line(#[trigger] item_lines(names)[i]) by {
        let l = " - "@ + names[i];
        assert(item_lines(names)[i] == l);
        assert(l.take(3) =~= " - "@);
        assert(no_newline(" - "@));
        lemma_no_newline_add(" - "@, names[i]);
    }
}

/// The lines of the done comparisons are item lines, where neither names
/// nor percentages hold line ends.
proof fn lemma_changed_item_shape(d: Seq<ChangedScreenshot>, p: Seq<Seq<char>>)
    requires
        p.len() >= d.len(),
        forall|i: int| 0 <= i < p.len() ==> no_newline(#[trigger] p[i]),
        forall|i: int| 0 <= i < d.len() ==> no_newline(#[trigger] d[i].name@),
    ensures
        forall|i: int| 0 <= i < changed_item_lines(d, p).len() ==> item_line(
            #[trigger] changed_item_lines(d, p)[i],
        ),
    decreases d.len(),
{
    if d.len() > 0 {
        let t = d.drop_last();
        assert forall|i: int| 0 <= i < t.len() implies no_newline(#[trigger] t[i].name@) by {
            assert(t[i] == d[i]);
        }
        lemma_changed_item_shape(t, p);
        let prev = changed_item_lines(t, p);
        if d.last().diff is Done {
            reveal_strlit(" - ");
            reveal_strlit(" (");
            reveal_strlit("%)");
            let l = " - "@ + d.last().name@ + " ("@ + p[d.len() - 1] + "%)"@;
            assert(no_newline(" - "@));
            assert(no_newline(" ("@));
            assert(no_newline("%)"@));
            assert(d.last() == d[d.len() - 1]);
            lemma_no_newline_add(" - "@, d.last().name@);
            lemma_no_newline_add(" - "@ + d.last().name@, " ("@);
            lemma_no_newline_add(" - "@ + d.last().name@ + " ("@, p[d.len() - 1]);
            lemma_no_newline_add(" - "@ + d.last().name@ + " ("@ + p[d.len() - 1], "%)"@);
            assert(l.take(3) =~= " - "@);
            let all = changed_item_lines(d, p);
            assert(all =~= prev + seq![l]);
            assert forall|i: int| 0 <= i < all.len() implies item_line(#[trigger] all[i]) by {
                if i < prev.len() {
                    assert(all[i] == prev[i]);
                }
            }
        } else {
            assert(changed_item_lines(d, p) =~= prev);
        }
    }
}

/// The lines of the comparisons under way are item lines, where no name
/// holds a line end.
proof fn lemma_waiting_item_shape(d: Seq<ChangedScreenshot>)
    requires
        forall|i: int| 0 <= i < d.len() ==> no_newline(#[trigger] d[i].name@),
    ensures
        forall|i: int| 0 <= i < waiting_item_lines(d).len() ==> item_line(
            #[trigger] waiting_item_lines(d)[i],
        ),
    decreases d.len(),
{
    if d.len() > 0 {
        let t = d.drop_last();
        assert forall|i: int| 0 <= i < t.len() implies no_newline(#[trigger] t[i].name@) by {
            assert(t[i] == d[i]);
        }
        lemma_waiting_item_shape(t);
        let prev = waiting_item_lines(t);
        if d.last().diff is Done {
            assert(waiting_item_lines(d) =~= prev);
        } else {
            reveal_strlit(" - ");
            let l = " - "@ + d.last().name@;
            assert(no_newline(" - "@));
            assert(d.last() == d[d.len() - 1]);
            lemma_no_newline_add(" - "@, d.last().name@);
            assert(l.take(3) =~= " - "@);
            let all = waiting_item_lines(d);
            assert(all =~= prev + seq![l]);
            assert forall|i: int| 0 <= i < all.len() implies item_line(#[trigger] all[i]) by {
                if i < prev.len() {
                    assert(all[i] == prev[i]);
                }
            }
        }
    }
}

/// Each line of a block is an item line or, where the count is not zero,
/// its header line.
proof fn lemma_block_shape(n: nat, label: Seq<char>, items: Seq<Seq<char>>)
    requires
        no_newline(label),
        forall|i: int| 0 <= i < items.len() ==> item_line(#[trigger] items[i]),
    ensures
        forall|i: int| 0 <= i < header_block(n, label, items).len() ==> ({
            let l = #[trigger] header_block(n, label, items)[i];
            no_newline(l) && (item_line(l) || (n > 0 && l == decimal_text(n) + label))
        }),
{
    lemma_decimal_line(n, label);
    lemma_no_newline_add(decimal_text(n), label);
    let b = header_block(n, label, items);
    if n > 0 {
        assert forall|i: int| 0 <= i < b.len() implies ({
            let l = #[trigger] b[i];
            no_newline(l) && (item_line(l) || (n > 0 && l == decimal_text(n) + label))
        }) by {
            if i > 0 {
                assert(b[i] == items[i - 1]);
            }
        }
    }
}

/// How the report of a comparison reads line by line, where no listed name
/// and no percentage holds a line end: its lines, each followed by a line
/// end, make up the report; a header line (one that is not a ` - ` item)
/// ending in ` processing` is there exactly when the comparison is not
/// finished, and one ending in ` changed` exactly when some comparison is
/// done; such a line gives the number of comparisons still under way, or
/// done; and the two numbers add up to the number of changed screenshots.
pub proof fn law_report_header_lines(c: ComparisonResult, p: Seq<Seq<char>>)
    requires
        p.len() == c.diff@.len(),
        forall|i: int| 0 <= i < p.len() ==> no_newline(#[trigger] p[i]),
        forall|i: int| 0 <= i < c.missing@.len() ==> no_newline(#[trigger] c.missing@[i].name@),
        forall|i: int| 0 <= i < c.new@.len() ==> no_newline(#[trigger] c.new@[i].name@),
        forall|i: int| 0 <= i < c.diff@.len() ==> no_newline(#[trigger] c.diff@[i].name@),
    ensures
        joined_lines(report_lines(c, p)) == detail_text(c, p),
        forall|i: int|
            0 <= i < report_lines(c, p).len() ==> no_newline(#[trigger] report_lines(c, p)[i]),
        !all_done(c.diff@) <==> exists|i: int|
            0 <= i < report_lines(c, p).len() && is_header_line(#[trigger] report_lines(c, p)[i])
                && ends_with(report_lines(c, p)[i], " processing"@),
        done_count(c.diff@) > 0 <==> exists|i: int|
            0 <= i < report_lines(c, p).len() && is_header_line(#[trigger] report_lines(c, p)[i])
                && ends_with(report_lines(c, p)[i], " changed"@),
        forall|i: int|
            0 <= i < report_lines(c, p).len() && is_header_line(#[trigger] report_lines(c, p)[i])
                && ends_with(report_lines(c, p)[i], " processing"@) ==> report_lines(c, p)[i]
                == decimal_text(processing_count(c.diff@)) + " processing"@,
        forall|i: int|
            0 <= i < report_lines(c, p).len() && is_header_line(#[trigger] report_lines(c, p)[i])
                && ends_with(report_lines(c, p)[i], " changed"@) ==> report_lines(c, p)[i]
                == decimal_text(done_count(c.diff@)) + " changed"@,
        done_count(c.diff@) + processing_count(c.diff@) == c.diff@.len(),
{
    let d = c.diff@;
    let done = done_count(d);
    let proc = processing_count(d);
    lemma_report_joined(c, p);
    law_report_counts_changed_screenshots(c, p);
    reveal_strlit(" missing");
    reveal_strlit(" new");
    reveal_strlit(" changed");
    reveal_strlit(" processing");
    reveal_strlit(" unchanged");
    reveal_strlit(" screenshots, ");
    let hm = decimal_text(c.missing@.len()) + " missing"@;
    let hn = decimal_text(c.new@.len()) + " new"@;
    let hc = decimal_text(done) + " changed"@;
    let hp = decimal_text(proc) + " processing"@;
    let sl = summary_line(c);
    // the line kinds
    let ok = |l: Seq<char>| no_newline(l) && (item_line(l) || l == sl || l == hm || l == hn || (
    done > 0 && l == hc) || (proc > 0 && l == hp));
    let s0 = seq![sl];
    let b1 = header_block(c.missing@.len(), " missing"@, item_lines(screenshot_names(c.missing@)));
    let b2 = header_block(c.new@.len(), " new"@, item_lines(screenshot_names(c.new@)));
    let b3 = header_block(done, " changed"@, changed_item_lines(d, p));
    let b4 = header_block(proc, " processing"@, waiting_item_lines(d));
    let ls = report_lines(c, p);
    assert(ls == s0 + b1 + b2 + b3 + b4);
    // the summary line
    lemma_decimal_line(c.new@.len() + c.diff@.len() + c.unchanged@.len(), " screenshots, "@);
    lemma_decimal_line(c.unchanged@.len(), " unchanged"@);
    assert(no_newline(" screenshots, "@));
    assert(no_newline(" unchanged"@));
    let sx = decimal_text(c.new@.len() + c.diff@.len() + c.unchanged@.len()) + " screenshots, "@
        + decimal_text(c.unchanged@.len());
    lemma_no_newline_add(decimal_text(c.new@.len() + c.diff@.len() + c.unchanged@.len()), " screenshots, "@);
    lemma_no_newline_add(decimal_text(c.new@.len() + c.diff@.len() + c.unchanged@.len()) + " screenshots, "@, decimal_text(c.unchanged@.len()));
    lemma_no_newline_add(sx, " unchanged"@);
    assert(sl == sx + " unchanged"@);
    assert(!starts_with(sl, " - "@)) by {
        lemma_decimal_line(c.new@.len() + c.diff@.len() + c.unchanged@.len(), " screenshots, "@
            + decimal_text(c.unchanged@.len()) + " unchanged"@);
        assert(sl =~= decimal_text(c.new@.len() + c.diff@.len() + c.unchanged@.len()) + (
        " screenshots, "@ + decimal_text(c.unchanged@.len()) + " unchanged"@));
    }
    // the blocks
    assert(no_newline(" missing"@));
    assert(no_newline(" new"@));
    assert(no_newline(" changed"@));
    assert(no_newline(" processing"@));
    lemma_item_lines_shape(screenshot_names(c.missing@));
    lemma_item_lines_shape(screenshot_names(c.new@));
    lemma_changed_item_shape(d, p);
    lemma_waiting_item_shape(d);
    lemma_block_shape(c.missing@.len(), " missing"@, item_lines(screenshot_names(c.missing@)));
    lemma_block_shape(c.new@.len(), " new"@, item_lines(screenshot_names(c.new@)));
    lemma_block_shape(done, " changed"@, changed_item_lines(d, p));
    lemma_block_shape(proc, " processing"@, waiting_item_lines(d));
    assert forall|i: int| 0 <= i < ls.len() implies #[trigger] ok(ls[i]) by {
        let a1 = s0 + b1;
        let a2 = a1 + b2;
        let a3 = a2 + b3;
        if i < s0.len() {
            assert(ls[i] == sl);
        } else if i < a1.len() {
            assert(ls[i] == b1[i - s0.len()]);
        } else if i < a2.len() {
            assert(ls[i] == b2[i - a1.len()]);
        } else if i < a3.len() {
            assert(ls[i] == b3[i - a2.len()]);
        } else {
            assert(ls[i] == b4[i - a3.len()]);
        }
    }
    // which header lines end as they do
    lemma_decimal_line(c.missing@.len(), " missing"@);
    lemma_decimal_line(c.new@.len(), " new"@);
    lemma_decimal_line(done, " changed"@);
    lemma_decimal_line(proc, " processing"@);
    lemma_not_ends(sx, " unchanged"@, " processing"@, 0);
    lemma_not_ends(sx, " unchanged"@, " changed"@, 7);
    lemma_not_ends(decimal_text(c.missing@.len()), " missing"@, " processing"@, 5);
    lemma_not_ends(decimal_text(c.missing@.len()), " missing"@, " changed"@, 0);
    lemma_not_ends(decimal_text(c.new@.len()), " new"@, " processing"@, 0);
    lemma_not_ends(decimal_text(c.new@.len()), " new"@, " changed"@, 0);
    lemma_not_ends(decimal_text(done), " changed"@, " processing"@, 0);
    lemma_not_ends(decimal_text(proc), " processing"@, " changed"@, 0);
    lemma_ends_self(decimal_text(done), " changed"@);
    lemma_ends_self(decimal_text(proc), " processing"@);
    assert forall|i: int|
        0 <= i < ls.len() && is_header_line(#[trigger] ls[i]) && ends_with(ls[i], " processing"@)
            implies ls[i] == hp && proc > 0 by {
        assert(ok(ls[i]));
    }
    assert forall|i: int|
        0 <= i < ls.len() && is_header_line(#[trigger] ls[i]) && ends_with(ls[i], " changed"@)
            implies ls[i] == hc && done > 0 by {
        assert(ok(ls[i]));
    }
    if proc > 0 {
        let k: int = (s0 + b1 + b2 + b3).len() as int;
        assert(ls[k] == b4[0]);
        assert(b4[0] == hp);
    }
    if done > 0 {
        let k: int = (s0 + b1 + b2).len() as int;
        assert(ls[k] == b3[0]);
        assert(b3[0] == hc);
    }
}

} // verus!
