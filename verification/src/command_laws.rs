//! Properties of the command line: the flags that a parsed command carries
//! are the flags that were given.

use vstd::prelude::*;

use crate::cli::CommandModel;
use crate::grammar::{classify, looks_like_flag, parse_spec, read_all, step, Opt, ParseModel, Tok};
use crate::text::{find_char, lemma_find_char};

verus! {

/// Whether `flag` was given among the arguments after the program name,
/// before any `--`.
pub open spec fn flag_given(args: Seq<Seq<char>>, flag: Seq<char>) -> bool {
    exists|i: int|
        1 <= i < args.len() && #[trigger] args[i] == flag && forall|j: int|
            1 <= j < i ==> args[j] != "--"@
}

/// Whether `flag` stands among the arguments before any `--`.
spec fn flag_before_dashes(s: Seq<Seq<char>>, flag: Seq<char>) -> bool {
    exists|i: int|
        0 <= i < s.len() && #[trigger] s[i] == flag && forall|j: int| 0 <= j < i ==> s[j] != "--"@
}

/// Whether `--` stands among the arguments.
spec fn dashes(s: Seq<Seq<char>>) -> bool {
    exists|j: int| 0 <= j < s.len() && #[trigger] s[j] == "--"@
}

/// One more argument: a flag stands before any `--` where it did already,
/// or where it is the new argument and no `--` came before.
proof fn lemma_push_flag(t: Seq<Seq<char>>, a: Seq<char>, flag: Seq<char>)
    ensures
        flag_before_dashes(t.push(a), flag) == (flag_before_dashes(t, flag) || (!dashes(t) && a
            == flag)),
        dashes(t.push(a)) == (dashes(t) || a == "--"@),
{
    let s = t.push(a);
    if flag_before_dashes(t, flag) {
        let i = choose|i: int|
            0 <= i < t.len() && #[trigger] t[i] == flag && forall|j: int|
                0 <= j < i ==> t[j] != "--"@;
        assert(s[i] == flag);
        assert forall|j: int| 0 <= j < i implies s[j] != "--"@ by {
            assert(s[j] == t[j]);
        }
    }
    if !dashes(t) && a == flag {
        let i = t.len() as int;
        assert(s[i] == flag);
        assert forall|j: int| 0 <= j < i implies s[j] != "--"@ by {
            assert(s[j] == t[j]);
            if t[j] == "--"@ {
                assert(dashes(t));
            }
        }
    }
    if flag_before_dashes(s, flag) {
        let i = choose|i: int|
            0 <= i < s.len() && #[trigger] s[i] == flag && forall|j: int|
                0 <= j < i ==> s[j] != "--"@;
        if i < t.len() {
            assert(t[i] == s[i]);
            assert forall|j: int| 0 <= j < i implies t[j] != "--"@ by {
                assert(t[j] == s[j]);
            }
        } else {
            if dashes(t) {
                let j = choose|j: int| 0 <= j < t.len() && #[trigger] t[j] == "--"@;
                assert(s[j] == t[j]);
            }
        }
    }
    if dashes(t) {
        let j = choose|j: int| 0 <= j < t.len() && #[trigger] t[j] == "--"@;
        assert(s[j] == t[j]);
    }
    if a == "--"@ {
        assert(s[t.len() as int] == a);
    }
    if dashes(s) {
        let j = choose|j: int| 0 <= j < s.len() && #[trigger] s[j] == "--"@;
        if j < t.len() {
            assert(t[j] == s[j]);
        }
    }
}

/// `--` is exactly the argument that ends the options.
proof fn lemma_double_dash(a: Seq<char>)
    ensures
        (classify(a) is DoubleDash) == (a == "--"@),
        a == "--"@ ==> looks_like_flag(a),
{
    reveal_strlit("--");
    if classify(a) is DoubleDash {
        assert(a =~= "--"@);
    }
}

/// A flag without a value, `--name`, reads as the long option `name`, and
/// only that argument does.
proof fn lemma_long_flag(a: Seq<char>, name: Seq<char>, flag: Seq<char>)
    requires
        flag =~= "--"@ + name,
        name.len() > 0,
        forall|j: int| 0 <= j < name.len() ==> name[j] != '=',
    ensures
        a == flag ==> classify(a) == Tok::Long(name, None),
        (classify(a) matches Tok::Long(n, v) && n == name && v is None) ==> a == flag,
        a == flag ==> looks_like_flag(a),
{
    reveal_strlit("--");
    if a == flag {
        let body = a.skip(2);
        assert(body =~= name);
        lemma_find_char(body, '=', body.len() as int);
    }
    if classify(a) matches Tok::Long(n, v) && n == name && v is None {
        let body = a.skip(2);
        crate::text::lemma_find_char_bounds(body, '=');
        assert(a =~= "--"@ + body);
    }
}

/// Reading one argument without a refusal: `--` ends the options, and a
/// flag is set by its own argument read before `--`, and by nothing else.
proof fn lemma_step_flags(st: ParseModel, a: Seq<char>)
    requires
        st.error is None,
        step(st, a).error is None,
    ensures
        step(st, a).only_positionals == (st.only_positionals || a == "--"@),
        step(st, a).clean_name == (st.clean_name || (!st.only_positionals && a
            == "--clean-name"@)),
        step(st, a).print_details == (st.print_details || (!st.only_positionals && a
            == "--print-details"@)),
        step(st, a).wait == (st.wait || (!st.only_positionals && a == "--wait"@)),
{
    reveal_strlit("token");
    reveal_strlit("format");
    reveal_strlit("metadata");
    reveal_strlit("name");
    reveal_strlit("output");
    reveal_strlit("with-run");
    reveal_strlit("wait-timeout");
    reveal_strlit("filter");
    reveal_strlit("same");
    reveal_strlit("help");
    reveal_strlit("version");
    reveal_strlit("--clean-name");
    reveal_strlit("clean-name");
    reveal_strlit("--print-details");
    reveal_strlit("print-details");
    reveal_strlit("--wait");
    reveal_strlit("wait");
    reveal_strlit("--");
    lemma_double_dash(a);
    lemma_long_flag(a, "clean-name"@, "--clean-name"@);
    lemma_long_flag(a, "print-details"@, "--print-details"@);
    lemma_long_flag(a, "wait"@, "--wait"@);
}

/// What reading arguments without a refusal leaves: whether `--` was read,
/// and each flag set exactly when it was given before any `--`.
proof fn lemma_read_all_flags(s: Seq<Seq<char>>)
    ensures
        read_all(s).error is None ==> {
            &&& read_all(s).only_positionals == dashes(s)
            &&& read_all(s).clean_name == flag_before_dashes(s, "--clean-name"@)
            &&& read_all(s).print_details == flag_before_dashes(s, "--print-details"@)
            &&& read_all(s).wait == flag_before_dashes(s, "--wait"@)
        },
    decreases s.len(),
{
    if s.len() > 0 {
        let t = s.drop_last();
        let a = s.last();
        lemma_read_all_flags(t);
        assert(t.push(a) =~= s);
        lemma_push_flag(t, a, "--clean-name"@);
        lemma_push_flag(t, a, "--print-details"@);
        lemma_push_flag(t, a, "--wait"@);
        if read_all(s).error is None {
            assert(read_all(t).error is None);
            lemma_step_flags(read_all(t), a);
        }
    }
}

/// The arguments after the program name give a flag before any `--`
/// exactly when the command line gives it.
proof fn lemma_flag_given_shift(args: Seq<Seq<char>>, flag: Seq<char>)
    requires
        args.len() > 0,
    ensures
        flag_given(args, flag) == flag_before_dashes(args.drop_first(), flag),
{
    let s = args.drop_first();
    if flag_given(args, flag) {
        let i = choose|i: int|
            1 <= i < args.len() && #[trigger] args[i] == flag && forall|j: int|
                1 <= j < i ==> args[j] != "--"@;
        assert(s[i - 1] == flag);
        assert forall|j: int| 0 <= j < i - 1 implies s[j] != "--"@ by {
            assert(s[j] == args[j + 1]);
        }
    }
    if flag_before_dashes(s, flag) {
        let i = choose|i: int|
            0 <= i < s.len() && #[trigger] s[i] == flag && forall|j: int|
                0 <= j < i ==> s[j] != "--"@;
        assert(args[i + 1] == flag);
        assert forall|j: int| 1 <= j < i + 1 implies args[j] != "--"@ by {
            assert(args[j] == s[j - 1]);
        }
    }
}

/// The flags of a parsed command are the flags given on the command line:
/// `--clean-name` for the uploads, `--print-details` and `--wait` for
/// `compare-run` and `get-comparison`, each set exactly when the argument
/// was given before any `--`.
pub proof fn law_flags_reach_command(args: Seq<Seq<char>>, env_token: Option<Seq<char>>)
    requires
        parse_spec(args, env_token) is Ok,
    ensures
        match parse_spec(args, env_token)->Ok_0.command {
            CommandModel::UploadScreenshot { clean_name, .. } => clean_name == flag_given(
                args,
                "--clean-name"@,
            ),
            CommandModel::UploadScreenshots { clean_name, .. } => clean_name == flag_given(
                args,
                "--clean-name"@,
            ),
            CommandModel::CompareRun { print_details, wait, .. } => print_details == flag_given(
                args,
                "--print-details"@,
            ) && wait == flag_given(args, "--wait"@),
            CommandModel::GetComparison { print_details, wait, .. } => print_details
                == flag_given(args, "--print-details"@) && wait == flag_given(args, "--wait"@),
            _ => true,
        },
{
    if args.len() == 0 {
        assert(read_all(args) == crate::grammar::initial_model());
    } else {
        let rest = args.drop_first();
        lemma_read_all_flags(rest);
        lemma_flag_given_shift(args, "--clean-name"@);
        lemma_flag_given_shift(args, "--print-details"@);
        lemma_flag_given_shift(args, "--wait"@);
    }
}

/// Whether the argument at `i` gives `v` to the option `flag`: as
/// `flag v` or as `flag=v`.
pub open spec fn names_value(s: Seq<Seq<char>>, i: int, flag: Seq<char>, v: Seq<char>) -> bool {
    (s[i] == flag && i + 1 < s.len() && s[i + 1] == v) || s[i] == flag + "="@ + v
}

/// No `--` stands before the argument at `i`.
spec fn no_dashes_before(s: Seq<Seq<char>>, i: int) -> bool {
    forall|j: int| 0 <= j < i ==> s[j] != "--"@
}

/// Whether, before any `--`, the arguments give `v` to the option `flag`.
spec fn value_before_dashes(s: Seq<Seq<char>>, flag: Seq<char>, v: Seq<char>) -> bool {
    exists|i: int| 0 <= i < s.len() && no_dashes_before(s, i) && #[trigger] names_value(s, i, flag, v)
}

/// Whether `flag v` or `flag=v` gives `v` to the option `flag` among the
/// arguments after the program name, before any `--`.
pub open spec fn value_given(args: Seq<Seq<char>>, flag: Seq<char>, v: Seq<char>) -> bool {
    exists|i: int|
        1 <= i < args.len() && (forall|j: int| 1 <= j < i ==> args[j] != "--"@)
            && #[trigger] names_value(args, i, flag, v)
}

/// The field that a text option fills.
spec fn text_field(st: ParseModel, o: Opt) -> Option<Seq<char>> {
    match o {
        Opt::Name => st.name,
        Opt::Metadata => st.metadata,
        _ => None,
    }
}

/// An option with a value, `--name`, reads as the long option `name`
/// waiting for its value, and `--name=x` as that option with the value `x`.
proof fn lemma_long_value(a: Seq<char>, name: Seq<char>, flag: Seq<char>, x: Seq<char>)
    requires
        flag =~= "--"@ + name,
        name.len() > 0,
        forall|j: int| 0 <= j < name.len() ==> name[j] != '=',
    ensures
        a == flag + "="@ + x ==> classify(a) == Tok::Long(name, Some(x)),
        (classify(a) matches Tok::Long(n, Some(y)) && n == name && y == x) ==> a == flag + "="@ + x,
        a == flag + "="@ + x ==> looks_like_flag(a),
{
    reveal_strlit("--");
    reveal_strlit("=");
    if a == flag + "="@ + x {
        let body = a.skip(2);
        assert(body =~= name + "="@ + x);
        lemma_find_char(body, '=', name.len() as int);
        assert(body.take(name.len() as int) =~= name);
        assert(body.skip(name.len() + 1int) =~= x);
    }
    if classify(a) matches Tok::Long(n, Some(y)) && n == name && y == x {
        let body = a.skip(2);
        crate::text::lemma_find_char_bounds(body, '=');
        let k = find_char(body, '=');
        assert(body =~= body.take(k) + "="@ + body.skip(k + 1));
        assert(a =~= "--"@ + body);
    }
}

/// Whether the parser waits for the value of `o`.
spec fn waits_for(st: ParseModel, o: Opt) -> bool {
    st.pending matches Some(w) && w.0 == o
}

/// Whether the argument, read as an option, is `--name=value`.
spec fn gives_inline(st: ParseModel, a: Seq<char>, name: Seq<char>) -> bool {
    &&& st.pending is None
    &&& !st.only_positionals
    &&& classify(a) matches Tok::Long(n, Some(_))
    &&& classify(a)->Long_0 == name
}

/// The value that an argument `--name=value` carries.
spec fn inline_value(a: Seq<char>) -> Seq<char> {
    match classify(a) {
        Tok::Long(_, Some(y)) => y,
        _ => Seq::empty(),
    }
}

/// What reading one argument without a refusal does to a text option named
/// `--name`: it waits for the value after the bare name, takes the value
/// it waited for or the value after `=`, and is otherwise left as it was.
proof fn lemma_step_text_effect(st: ParseModel, a: Seq<char>, o: Opt, name: Seq<char>, flag: Seq<char>)
    requires
        (o == Opt::Name && name == "name"@) || (o == Opt::Metadata && name == "metadata"@),
        flag =~= "--"@ + name,
        st.error is None,
        step(st, a).error is None,
    ensures
        waits_for(step(st, a), o) == (st.pending is None && !st.only_positionals && a == flag),
        st.pending is Some ==> !looks_like_flag(a),
        waits_for(st, o) ==> text_field(st, o) is None && text_field(step(st, a), o) == Some(a),
        gives_inline(st, a, name) ==> text_field(st, o) is None && text_field(step(st, a), o)
            == Some(inline_value(a)),
        text_field(step(st, a), o) != text_field(st, o) ==> waits_for(st, o) || gives_inline(
            st,
            a,
            name,
        ),
{
    reveal_strlit("token");
    reveal_strlit("format");
    reveal_strlit("metadata");
    reveal_strlit("name");
    reveal_strlit("output");
    reveal_strlit("with-run");
    reveal_strlit("wait-timeout");
    reveal_strlit("filter");
    reveal_strlit("same");
    reveal_strlit("clean-name");
    reveal_strlit("print-details");
    reveal_strlit("wait");
    reveal_strlit("help");
    reveal_strlit("version");
    lemma_long_flag(a, name, flag);
}

/// An argument that gives a value among some arguments gives it among
/// more.
proof fn lemma_value_extends(t: Seq<Seq<char>>, a: Seq<char>, flag: Seq<char>, v: Seq<char>)
    requires
        value_before_dashes(t, flag, v),
    ensures
        value_before_dashes(t.push(a), flag, v),
{
    let s = t.push(a);
    let i = choose|i: int|
        0 <= i < t.len() && no_dashes_before(t, i) && #[trigger] names_value(t, i, flag, v);
    assert(s[i] == t[i]);
    if i + 1 < t.len() {
        assert(s[i + 1] == t[i + 1]);
    }
    assert(names_value(s, i, flag, v));
    assert forall|j: int| 0 <= j < i implies s[j] != "--"@ by {
        assert(s[j] == t[j]);
    }
    assert(no_dashes_before(s, i));
}

/// Without `--`, no `--` stands before any place.
proof fn lemma_no_dashes(t: Seq<Seq<char>>, i: int)
    requires
        !dashes(t),
        0 <= i <= t.len(),
    ensures
        no_dashes_before(t, i),
{
    assert forall|j: int| 0 <= j < i implies t[j] != "--"@ by {
        if t[j] == "--"@ {
            assert(dashes(t));
        }
    }
}

/// What reading arguments without a refusal leaves of a text option named
/// `--name`: it waits for its value right after its bare name, and holds a
/// value exactly when the arguments give it one before any `--`.
proof fn lemma_read_all_value(s: Seq<Seq<char>>, o: Opt, name: Seq<char>, flag: Seq<char>)
    requires
        (o == Opt::Name && name == "name"@) || (o == Opt::Metadata && name == "metadata"@),
        flag =~= "--"@ + name,
    ensures
        read_all(s).error is None ==> {
            &&& waits_for(read_all(s), o) == (s.len() > 0 && s.last() == flag && !dashes(
                s.drop_last(),
            ))
            &&& text_field(read_all(s), o) is Some ==> value_before_dashes(
                s,
                flag,
                text_field(read_all(s), o)->0,
            )
            &&& forall|v: Seq<char>|
                value_before_dashes(s, flag, v) ==> text_field(read_all(s), o) == Some(v)
        },
    decreases s.len(),
{
    reveal_strlit("name");
    reveal_strlit("metadata");
    if s.len() == 0 {
        assert forall|v: Seq<char>| value_before_dashes(s, flag, v) implies text_field(
            read_all(s),
            o,
        ) == Some(v) by {}
    } else {
        let t = s.drop_last();
        let a = s.last();
        assert(t.push(a) =~= s);
        lemma_read_all_value(t, o, name, flag);
        lemma_read_all_flags(t);
        lemma_push_flag(t, a, flag);
        if read_all(s).error is None {
            let st = read_all(t);
            assert(st.error is None);
            lemma_step_text_effect(st, a, o, name, flag);
            lemma_long_flag(a, name, flag);
            let nf = text_field(read_all(s), o);
            let f0 = text_field(st, o);
            // a value held is given
            if nf is Some {
                let v = nf->0;
                if nf == f0 {
                    lemma_value_extends(t, a, flag, v);
                } else if waits_for(st, o) {
                    let i = t.len() - 1;
                    assert(s[i] == t.last() && s[i + 1] == a);
                    assert(names_value(s, i, flag, v));
                    assert forall|j: int| 0 <= j < i implies s[j] != "--"@ by {
                        assert(s[j] == t.drop_last()[j]);
                        if s[j] == "--"@ {
                            assert(dashes(t.drop_last()));
                        }
                    }
                    assert(no_dashes_before(s, i));
                } else {
                    lemma_long_value(a, name, flag, inline_value(a));
                    let i = t.len() as int;
                    assert(s[i] == a);
                    assert(names_value(s, i, flag, v));
                    lemma_no_dashes(t, i);
                    assert forall|j: int| 0 <= j < i implies s[j] != "--"@ by {
                        assert(s[j] == t[j]);
                    }
                    assert(no_dashes_before(s, i));
                }
            }
            // every value given is the one held
            assert forall|v: Seq<char>| value_before_dashes(s, flag, v) implies nf == Some(v) by {
                let i = choose|i: int|
                    0 <= i < s.len() && no_dashes_before(s, i) && #[trigger] names_value(
                        s,
                        i,
                        flag,
                        v,
                    );
                assert forall|j: int| 0 <= j < i && j < t.len() implies t[j] != "--"@ by {
                    assert(s[j] == t[j]);
                }
                if i + 1 < t.len() || (i < t.len() && s[i] == flag + "="@ + v) {
                    assert(s[i] == t[i]);
                    if i + 1 < t.len() {
                        assert(s[i + 1] == t[i + 1]);
                    }
                    assert(names_value(t, i, flag, v));
                    assert(no_dashes_before(t, i));
                    assert(value_before_dashes(t, flag, v));
                } else if i < t.len() {
                    assert(i == t.len() - 1);
                    assert(t.last() == flag);
                    assert(s[i + 1] == a);
                    assert(!dashes(t.drop_last())) by {
                        if dashes(t.drop_last()) {
                            let j = choose|j: int|
                                0 <= j < t.drop_last().len() && #[trigger] t.drop_last()[j]
                                    == "--"@;
                            assert(t.drop_last()[j] == s[j]);
                        }
                    }
                } else {
                    assert(s[i] == a);
                    assert(a == flag + "="@ + v);
                    lemma_long_value(a, name, flag, v);
                    assert(!dashes(t)) by {
                        if dashes(t) {
                            let j = choose|j: int| 0 <= j < t.len() && #[trigger] t[j] == "--"@;
                            assert(s[j] == t[j]);
                        }
                    }
                    assert(gives_inline(st, a, name));
                }
            }
        }
    }
}

/// The argument at `i` of the command line gives a value exactly when the
/// argument at `i - 1` after the program name does.
proof fn lemma_names_value_shift(args: Seq<Seq<char>>, i: int, flag: Seq<char>, v: Seq<char>)
    requires
        1 <= i < args.len(),
    ensures
        names_value(args, i, flag, v) == names_value(args.drop_first(), i - 1, flag, v),
{
    let s = args.drop_first();
    assert(s[i - 1] == args[i]);
    if i + 1 < args.len() {
        assert(s[i] == args[i + 1]);
    }
}

/// The arguments after the program name give a value before any `--`
/// exactly when the command line gives it.
proof fn lemma_value_given_shift(args: Seq<Seq<char>>, flag: Seq<char>, v: Seq<char>)
    requires
        args.len() > 0,
    ensures
        value_given(args, flag, v) == value_before_dashes(args.drop_first(), flag, v),
{
    let s = args.drop_first();
    if value_given(args, flag, v) {
        let i = choose|i: int|
            1 <= i < args.len() && (forall|j: int| 1 <= j < i ==> args[j] != "--"@)
                && #[trigger] names_value(args, i, flag, v);
        lemma_names_value_shift(args, i, flag, v);
        assert forall|j: int| 0 <= j < i - 1 implies s[j] != "--"@ by {
            assert(s[j] == args[j + 1]);
        }
        assert(no_dashes_before(s, i - 1));
    }
    if value_before_dashes(s, flag, v) {
        let i = choose|i: int|
            0 <= i < s.len() && no_dashes_before(s, i) && #[trigger] names_value(s, i, flag, v);
        lemma_names_value_shift(args, i + 1, flag, v);
        assert forall|j: int| 1 <= j < i + 1 implies args[j] != "--"@ by {
            assert(args[j] == s[j - 1]);
        }
    }
}

/// The text values of a parsed command are the values given on the command
/// line: `--name` for `upload-screenshot` and `--metadata` for `new-run`,
/// as `--option value` or `--option=value` before any `--`; the command
/// holds `v` exactly when the command line gives `v`.
pub proof fn law_text_options_reach_command(
    args: Seq<Seq<char>>,
    env_token: Option<Seq<char>>,
    v: Seq<char>,
)
    requires
        parse_spec(args, env_token) is Ok,
    ensures
        match parse_spec(args, env_token)->Ok_0.command {
            CommandModel::UploadScreenshot { name, .. } => (name == Some(v)) == value_given(
                args,
                "--name"@,
                v,
            ),
            CommandModel::NewRun { metadata } => (metadata == Some(v)) == value_given(
                args,
                "--metadata"@,
                v,
            ),
            _ => true,
        },
{
    reveal_strlit("--name");
    reveal_strlit("--metadata");
    reveal_strlit("name");
    reveal_strlit("metadata");
    reveal_strlit("--");
    if args.len() == 0 {
        assert(read_all(args) == crate::grammar::initial_model());
    } else {
        let rest = args.drop_first();
        assert("--name"@ =~= "--"@ + "name"@);
        assert("--metadata"@ =~= "--"@ + "metadata"@);
        lemma_read_all_value(rest, Opt::Name, "name"@, "--name"@);
        lemma_read_all_value(rest, Opt::Metadata, "metadata"@, "--metadata"@);
        lemma_value_given_shift(args, "--name"@, v);
        lemma_value_given_shift(args, "--metadata"@, v);
    }
}

} // verus!
