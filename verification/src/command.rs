//! The console's command line: splitting it into arguments and reading them.
use vstd::prelude::*;
use vstd::string::*;
use crate::player::default_player_name;
use crate::text::{
    all_digits, chars_of, dec_int, dec_nat, digit_char, digit_value, digits_value, is_digit, is_space,
    lemma_dec_nat_digits, is_space_char, parse_i32, parse_i32_spec, push_char,
    push_decimal_i64, str_eq,
};

verus! {

broadcast use vstd::string::group_string_axioms;

/// Where the splitter stands after reading part of a command line.
pub struct SplitState {
    /// Arguments completed so far.
    pub args: Seq<Seq<char>>,
    /// The argument being read.
    pub current: Seq<char>,
    /// The quote character of an open quotation.
    pub quote: Option<char>,
    /// Whether an argument has begun (an empty pair of quotes begins one).
    pub started: bool,
}

/// The splitter before reading anything.
pub open spec fn split_init() -> SplitState {
    SplitState { args: seq![], current: seq![], quote: None, started: false }
}

/// Reading one character: inside quotes everything but the closing quote is kept;
/// outside, `"` and `'` open a quotation, whitespace ends the current argument, and
/// any other character is kept.
pub open spec fn split_step(st: SplitState, c: char) -> SplitState {
    match st.quote {
        Some(q) => if c == q {
            SplitState { quote: None, ..st }
        } else {
            SplitState { started: true, current: st.current.push(c), ..st }
        },
        None => if c == '"' || c == '\'' {
            SplitState { quote: Some(c), started: true, ..st }
        } else if is_space(c) {
            if st.started {
                SplitState { args: st.args.push(st.current), current: seq![], started: false, ..st }
            } else {
                st
            }
        } else {
            SplitState { started: true, current: st.current.push(c), ..st }
        },
    }
}

/// The splitter after reading all of `s`.
pub open spec fn split_run(s: Seq<char>) -> SplitState
    decreases s.len(),
{
    if s.len() == 0 {
        split_init()
    } else {
        split_step(split_run(s.drop_last()), s.last())
    }
}

/// The arguments of a command line, or the quote character left unclosed.
pub open spec fn split_spec(s: Seq<char>) -> Result<Seq<Seq<char>>, char> {
    let st = split_run(s);
    match st.quote {
        Some(q) => Err(q),
        None => Ok(
            if st.started {
                st.args.push(st.current)
            } else {
                st.args
            },
        ),
    }
}

/// The character sequences of a list of strings.
pub open spec fn strings_view(v: Seq<String>) -> Seq<Seq<char>> {
    v.map_values(|x: String| x@)
}

/// Splits a command line into arguments, honouring single and double quotes.
/// An unclosed quotation is an error that names the quote character.
pub fn split_command_args(command: &str) -> (res: Result<Vec<String>, String>)
    ensures
        match (res, split_spec(command@)) {
            (Ok(v), Ok(a)) => strings_view(v@) == a,
            (Err(m), Err(q)) => m@ == "缺少结束引号: "@.push(q),
            _ => false,
        },
{
    let cs = chars_of(command);
    let n = cs.len();
    let mut args: Vec<String> = Vec::new();
    let mut current = String::new();
    let mut quote: Option<char> = None;
    let mut started = false;
    let mut i: usize = 0;
    assert(cs@.take(0) =~= Seq::<char>::empty());
    assert(strings_view(args@) =~= Seq::<Seq<char>>::empty());
    while i < n
        invariant
            i <= n,
            n == cs@.len(),
            cs@ == command@,
            split_run(cs@.take(i as int)) == (SplitState {
                args: strings_view(args@),
                current: current@,
                quote,
                started,
            }),
        decreases n - i,
    {
        let c = cs[i];
        assert(cs@.take(i + 1).drop_last() =~= cs@.take(i as int));
        match quote {
            Some(q) => {
                if c == q {
                    quote = None;
                } else {
                    started = true;
                    push_char(&mut current, c);
                }
            },
            None => {
                if c == '"' || c == '\'' {
                    quote = Some(c);
                    started = true;
                } else if is_space_char(c) {
                    if started {
                        let ghost old_args = args@;
                        args.push(current);
                        current = String::new();
                        started = false;
                        assert(strings_view(args@) =~= strings_view(old_args).push(
                            strings_view(args@).last(),
                        ));
                    }
                } else {
                    started = true;
                    push_char(&mut current, c);
                }
            },
        }
        i = i + 1;
    }
    assert(cs@.take(n as int) =~= cs@);
    if let Some(q) = quote {
        let mut msg = String::from_str("缺少结束引号: ");
        push_char(&mut msg, q);
        return Err(msg);
    }
    if started {
        let ghost old_args = args@;
        args.push(current);
        assert(strings_view(args@) =~= strings_view(old_args).push(strings_view(args@).last()));
    }
    Ok(args)
}

/// The splitter after reading `s`, starting from `st`.
pub open spec fn split_from(st: SplitState, s: Seq<char>) -> SplitState
    decreases s.len(),
{
    if s.len() == 0 {
        st
    } else {
        split_from(split_step(st, s[0]), s.drop_first())
    }
}

/// Arguments written out with one space between them.
pub open spec fn join_with_spaces(tokens: Seq<Seq<char>>) -> Seq<char>
    decreases tokens.len(),
{
    if tokens.len() == 0 {
        seq![]
    } else if tokens.len() == 1 {
        tokens[0]
    } else {
        join_with_spaces(tokens.drop_last()) + seq![' '] + tokens.last()
    }
}

/// A character that the splitter keeps as it is outside quotes.
pub open spec fn is_plain(c: char) -> bool {
    !is_space(c) && c != '"' && c != '\''
}

/// Reading `a` then `b` is reading `a + b`.
proof fn lemma_split_run_concat(a: Seq<char>, b: Seq<char>)
    ensures
        split_run(a + b) == split_from(split_run(a), b),
    decreases b.len(),
{
    if b.len() == 0 {
        assert(a + b =~= a);
    } else {
        let a1 = a.push(b[0]);
        assert(a + b =~= a1 + b.drop_first());
        assert(a1.drop_last() =~= a);
        lemma_split_run_concat(a1, b.drop_first());
    }
}

/// Reading plain characters outside quotes appends them to the current argument.
proof fn lemma_split_plain(st: SplitState, t: Seq<char>)
    requires
        st.quote is None,
        forall|i: int| 0 <= i < t.len() ==> is_plain(#[trigger] t[i]),
    ensures
        split_from(st, t) == (if t.len() == 0 {
            st
        } else {
            SplitState { current: st.current + t, started: true, ..st }
        }),
    decreases t.len(),
{
    if t.len() > 0 {
        let st1 = split_step(st, t[0]);
        assert(is_plain(t[0]));
        assert forall|i: int| 0 <= i < t.drop_first().len() implies is_plain(
            #[trigger] t.drop_first()[i],
        ) by {
            assert(t.drop_first()[i] == t[i + 1]);
        }
        lemma_split_plain(st1, t.drop_first());
        assert(st.current.push(t[0]) + t.drop_first() =~= st.current + t);
    }
}

proof fn lemma_split_join_state(tokens: Seq<Seq<char>>)
    requires
        tokens.len() > 0,
        forall|i: int|
            0 <= i < tokens.len() ==> #[trigger] tokens[i].len() > 0 && (forall|j: int|
                0 <= j < tokens[i].len() ==> is_plain(#[trigger] tokens[i][j])),
    ensures
        split_run(join_with_spaces(tokens)) == (SplitState {
            args: tokens.drop_last(),
            current: tokens.last(),
            quote: None,
            started: true,
        }),
    decreases tokens.len(),
{
    let last = tokens.last();
    assert(tokens[tokens.len() - 1].len() > 0);
    if tokens.len() == 1 {
        lemma_split_run_concat(seq![], last);
        assert(Seq::<char>::empty() + last =~= last);
        lemma_split_plain(split_init(), last);
        assert(seq![] + last =~= last);
        assert(tokens.drop_last() =~= seq![]);
    } else {
        let rest = tokens.drop_last();
        assert forall|i: int| 0 <= i < rest.len() implies #[trigger] rest[i].len() > 0 && (forall|
            j: int,
        | 0 <= j < rest[i].len() ==> is_plain(#[trigger] rest[i][j])) by {
            assert(rest[i] == tokens[i]);
        }
        lemma_split_join_state(rest);
        let prefix = join_with_spaces(rest) + seq![' '];
        assert(prefix.drop_last() =~= join_with_spaces(rest));
        assert(is_space(' '));
        let st = split_run(prefix);
        assert(st == SplitState {
            args: rest.drop_last().push(rest.last()),
            current: seq![],
            quote: None,
            started: false,
        });
        assert(rest.drop_last().push(rest.last()) =~= rest);
        lemma_split_run_concat(prefix, last);
        lemma_split_plain(st, last);
        assert(Seq::<char>::empty() + last =~= last);
    }
}

/// Arguments made of plain characters, joined by single spaces, split back into the
/// same arguments.
pub proof fn lemma_split_join_roundtrip(tokens: Seq<Seq<char>>)
    requires
        forall|i: int|
            0 <= i < tokens.len() ==> #[trigger] tokens[i].len() > 0 && (forall|j: int|
                0 <= j < tokens[i].len() ==> is_plain(#[trigger] tokens[i][j])),
    ensures
        split_spec(join_with_spaces(tokens)) == Ok::<Seq<Seq<char>>, char>(tokens),
{
    if tokens.len() == 0 {
        assert(split_spec(seq![]) == Ok::<Seq<Seq<char>>, char>(seq![]));
        assert(tokens =~= seq![]);
    } else {
        lemma_split_join_state(tokens);
        assert(tokens.drop_last().push(tokens.last()) =~= tokens);
    }
}

/// The words of `s` that `str::split_whitespace` gives: its maximal runs of characters
/// that are not whitespace, in order.
pub open spec fn whitespace_words(s: Seq<char>) -> Seq<Seq<char>>
    decreases s.len(),
{
    if s.len() == 0 {
        seq![]
    } else {
        let w = whitespace_words(s.drop_last());
        let c = s.last();
        if is_space(c) {
            w
        } else if s.len() > 1 && !is_space(s.drop_last().last()) {
            w.drop_last().push(w.last().push(c))
        } else {
            w.push(seq![c])
        }
    }
}

/// Whether `s` holds no quote character.
pub open spec fn quote_free(s: Seq<char>) -> bool {
    forall|i: int| 0 <= i < s.len() ==> #[trigger] s[i] != '"' && s[i] != '\''
}

proof fn lemma_split_words_state(s: Seq<char>)
    requires
        quote_free(s),
    ensures
        split_run(s).quote is None,
        split_run(s).started == (s.len() > 0 && !is_space(s.last())),
        !split_run(s).started ==> split_run(s).current == Seq::<char>::empty(),
        whitespace_words(s) == (if split_run(s).started {
            split_run(s).args.push(split_run(s).current)
        } else {
            split_run(s).args
        }),
    decreases s.len(),
{
    if s.len() > 0 {
        let p = s.drop_last();
        assert forall|i: int| 0 <= i < p.len() implies #[trigger] p[i] != '"' && p[i] != '\'' by {
            assert(p[i] == s[i]);
        }
        lemma_split_words_state(p);
        let st = split_run(p);
        let c = s.last();
        assert(c == s[s.len() - 1]);
        if !is_space(c) && st.started {
            assert(p.len() > 0);
            let w = st.args.push(st.current);
            assert(w.drop_last() =~= st.args);
        }
    }
}

/// A command line without quotes splits into the same words as `str::split_whitespace`
/// gives.
pub proof fn lemma_split_without_quotes(s: Seq<char>)
    requires
        quote_free(s),
    ensures
        split_spec(s) == Ok::<Seq<Seq<char>>, char>(whitespace_words(s)),
{
    lemma_split_words_state(s);
}

/// Whether `t` holds no `"`.
pub open spec fn no_double_quote(t: Seq<char>) -> bool {
    forall|j: int| 0 <= j < t.len() ==> #[trigger] t[j] != '"'
}

/// An argument in double quotes.
pub open spec fn double_quoted(t: Seq<char>) -> Seq<char> {
    seq!['"'] + t + seq!['"']
}

/// Reading `a` then `b` from `st` is reading `a + b` from `st`.
proof fn lemma_split_from_concat(st: SplitState, a: Seq<char>, b: Seq<char>)
    ensures
        split_from(st, a + b) == split_from(split_from(st, a), b),
    decreases a.len(),
{
    if a.len() == 0 {
        assert(a + b =~= b);
    } else {
        assert((a + b)[0] == a[0]);
        assert((a + b).drop_first() =~= a.drop_first() + b);
        lemma_split_from_concat(split_step(st, a[0]), a.drop_first(), b);
    }
}

/// Reading one character is one step.
proof fn lemma_split_one(st: SplitState, c: char)
    ensures
        split_from(st, seq![c]) == split_step(st, c),
{
    let s = seq![c];
    assert(s[0] == c);
    assert(s.drop_first() =~= Seq::<char>::empty());
    assert(split_from(split_step(st, c), Seq::<char>::empty()) == split_step(st, c));
}

/// Inside a quotation opened by `q`, every character but `q` is kept.
proof fn lemma_split_inside_quotes(st: SplitState, t: Seq<char>, q: char)
    requires
        st.quote == Some(q),
        st.started,
        forall|i: int| 0 <= i < t.len() ==> #[trigger] t[i] != q,
    ensures
        split_from(st, t) == (SplitState { current: st.current + t, ..st }),
    decreases t.len(),
{
    if t.len() == 0 {
        assert(st.current + t =~= st.current);
    } else {
        assert(t[0] != q);
        assert forall|i: int| 0 <= i < t.drop_first().len() implies #[trigger] t.drop_first()[i]
            != q by {
            assert(t.drop_first()[i] == t[i + 1]);
        }
        lemma_split_inside_quotes(split_step(st, t[0]), t.drop_first(), q);
        assert(st.current.push(t[0]) + t.drop_first() =~= st.current + t);
    }
}

/// An argument between two quote characters `q`.
pub open spec fn quoted_by(q: char, t: Seq<char>) -> Seq<char> {
    seq![q] + t + seq![q]
}

/// Reading an argument quoted by `q` (`"` or `'`) outside quotes adds its text to the
/// current argument.
proof fn lemma_split_quoted_by(st: SplitState, t: Seq<char>, q: char)
    requires
        q == '"' || q == '\'',
        st.quote is None,
        forall|i: int| 0 <= i < t.len() ==> #[trigger] t[i] != q,
    ensures
        split_from(st, quoted_by(q, t)) == (SplitState {
            current: st.current + t,
            started: true,
            ..st
        }),
{
    let open = split_step(st, q);
    assert(quoted_by(q, t) =~= (seq![q] + t) + seq![q]);
    lemma_split_from_concat(st, seq![q] + t, seq![q]);
    lemma_split_from_concat(st, seq![q], t);
    lemma_split_one(st, q);
    lemma_split_inside_quotes(open, t, q);
    let inside = split_from(open, t);
    lemma_split_one(inside, q);
}

/// Reading a double-quoted argument outside quotes adds its text to the current argument.
proof fn lemma_split_quoted(st: SplitState, t: Seq<char>)
    requires
        st.quote is None,
        forall|i: int| 0 <= i < t.len() ==> #[trigger] t[i] != '"',
    ensures
        split_from(st, double_quoted(t)) == (SplitState {
            current: st.current + t,
            started: true,
            ..st
        }),
{
    assert(double_quoted(t) == quoted_by('"', t));
    lemma_split_quoted_by(st, t, '"');
}

/// Inside a quotation opened by `"` or `'`, every character but that quote is kept: a
/// line that is one argument in such quotes, holding no such quote itself, splits into
/// exactly that argument (JSON in single quotes keeps its double quotes, and the other
/// way round).
pub proof fn lemma_split_one_quoted_argument(q: char, t: Seq<char>)
    requires
        q == '"' || q == '\'',
        forall|i: int| 0 <= i < t.len() ==> #[trigger] t[i] != q,
    ensures
        split_spec(seq![q] + t + seq![q]) == Ok::<Seq<Seq<char>>, char>(seq![t]),
{
    let line = quoted_by(q, t);
    lemma_split_run_concat(seq![], line);
    assert(Seq::<char>::empty() + line =~= line);
    lemma_split_quoted_by(split_init(), t, q);
    assert(Seq::<char>::empty() + t =~= t);
    assert(Seq::<Seq<char>>::empty().push(t) =~= seq![t]);
}

proof fn lemma_split_quoted_state(tokens: Seq<Seq<char>>)
    requires
        tokens.len() > 0,
        forall|i: int| 0 <= i < tokens.len() ==> no_double_quote(#[trigger] tokens[i]),
    ensures
        split_run(join_with_spaces(tokens.map_values(|t: Seq<char>| double_quoted(t)))) == (
        SplitState { args: tokens.drop_last(), current: tokens.last(), quote: None, started: true }),
    decreases tokens.len(),
{
    let q = tokens.map_values(|t: Seq<char>| double_quoted(t));
    let last = tokens.last();
    assert(no_double_quote(last)) by {
        assert(last == tokens[tokens.len() - 1]);
    }
    assert(q.last() == double_quoted(last));
    if tokens.len() == 1 {
        assert(join_with_spaces(q) == q[0]);
        lemma_split_run_concat(seq![], double_quoted(last));
        assert(Seq::<char>::empty() + double_quoted(last) =~= double_quoted(last));
        lemma_split_quoted(split_init(), last);
        assert(Seq::<char>::empty() + last =~= last);
        assert(tokens.drop_last() =~= seq![]);
    } else {
        let rest = tokens.drop_last();
        assert forall|i: int| 0 <= i < rest.len() implies no_double_quote(#[trigger] rest[i]) by {
            assert(rest[i] == tokens[i]);
        }
        lemma_split_quoted_state(rest);
        let qrest = rest.map_values(|t: Seq<char>| double_quoted(t));
        assert(q.drop_last() =~= qrest);
        let prefix = join_with_spaces(qrest) + seq![' '];
        assert(prefix.drop_last() =~= join_with_spaces(qrest));
        assert(is_space(' '));
        let st = split_run(prefix);
        assert(st == SplitState {
            args: rest.drop_last().push(rest.last()),
            current: seq![],
            quote: None,
            started: false,
        });
        assert(rest.drop_last().push(rest.last()) =~= rest);
        assert(join_with_spaces(q) == prefix + double_quoted(last));
        lemma_split_run_concat(prefix, double_quoted(last));
        lemma_split_quoted(st, last);
        assert(Seq::<char>::empty() + last =~= last);
    }
}

/// Arguments without `"`, each put in double quotes and joined by single spaces, split
/// back into the same arguments, empty ones and ones holding spaces or `'` included.
pub proof fn lemma_split_quoted_roundtrip(tokens: Seq<Seq<char>>)
    requires
        forall|i: int| 0 <= i < tokens.len() ==> no_double_quote(#[trigger] tokens[i]),
    ensures
        split_spec(join_with_spaces(tokens.map_values(|t: Seq<char>| double_quoted(t))))
            == Ok::<Seq<Seq<char>>, char>(tokens),
{
    if tokens.len() == 0 {
        let q = tokens.map_values(|t: Seq<char>| double_quoted(t));
        assert(q.len() == 0);
        assert(split_spec(seq![]) == Ok::<Seq<Seq<char>>, char>(seq![]));
        assert(tokens =~= seq![]);
    } else {
        lemma_split_quoted_state(tokens);
        assert(tokens.drop_last().push(tokens.last()) =~= tokens);
    }
}

/// The argument at `index`, or an error naming the missing argument.
pub fn required_arg<'a>(args: &'a [String], index: usize, name: &str) -> (res: Result<
    &'a str,
    String,
>)
    ensures
        match res {
            Ok(a) => index < args@.len() && a@ == args@[index as int]@,
            Err(m) => index >= args@.len() && m@ == "缺少参数: "@ + name@,
        },
{
    if index < args.len() {
        Ok(args[index].as_str())
    } else {
        let mut msg = String::from_str("缺少参数: ");
        msg.append(name);
        Err(msg)
    }
}

/// The message for an argument that is not an integer.
pub open spec fn not_integer_msg(name: Seq<char>) -> Seq<char> {
    name + " 必须是整数"@
}

fn not_integer_error(name: &str) -> (res: String)
    ensures
        res@ == not_integer_msg(name@),
{
    let mut msg = String::from_str(name);
    msg.append(" 必须是整数");
    msg
}

/// The argument at `index` read as an `i32`.
pub fn parse_required_i32(args: &[String], index: usize, name: &str) -> (res: Result<i32, String>)
    ensures
        index >= args@.len() ==> res is Err && res->Err_0@ == "缺少参数: "@ + name@,
        index < args@.len() ==> match parse_i32_spec(args@[index as int]@) {
            Some(v) => res == Ok::<i32, String>(v),
            None => res is Err && res->Err_0@ == not_integer_msg(name@),
        },
{
    let arg = required_arg(args, index, name)?;
    match parse_i32(arg) {
        Some(v) => Ok(v),
        None => Err(not_integer_error(name)),
    }
}

/// An optional argument read as an `i32`, or `default` when it is absent.
pub fn parse_optional_i32(value: Option<&String>, default: i32, name: &str) -> (res: Result<
    i32,
    String,
>)
    ensures
        match value {
            None => res == Ok::<i32, String>(default),
            Some(v) => match parse_i32_spec(v@) {
                Some(n) => res == Ok::<i32, String>(n),
                None => res is Err && res->Err_0@ == not_integer_msg(name@),
            },
        },
{
    match value {
        Some(v) => match parse_i32(v.as_str()) {
            Some(n) => Ok(n),
            None => Err(not_integer_error(name)),
        },
        None => Ok(default),
    }
}

/// Rust's truncating division of `a` by a positive `b`.
pub open spec fn trunc_div(a: int, b: int) -> int {
    if a >= 0 {
        a / b
    } else {
        -((-a) / b)
    }
}

/// Rust's remainder of `a` by a positive `b` (its sign follows `a`).
pub open spec fn trunc_rem(a: int, b: int) -> int {
    a - b * trunc_div(a, b)
}

/// `format!("{:02}", n)`: at least two characters, zero-padded after any sign.
pub open spec fn pad2(n: int) -> Seq<char> {
    if 0 <= n < 10 {
        seq!['0'] + dec_int(n)
    } else {
        dec_int(n)
    }
}

/// `hh:mm:ss` for a number of seconds, as `format!("{:02}:{:02}:{:02}", h, m, s)`
/// renders the truncated hours, minutes and seconds.
pub open spec fn duration_text(secs: int) -> Seq<char> {
    pad2(trunc_div(secs, 3600)) + seq![':'] + pad2(trunc_div(trunc_rem(secs, 3600), 60)) + seq![
        ':',
    ] + pad2(trunc_rem(secs, 60))
}

/// A number below 100 padded to two digits reads back as itself; a larger one keeps its
/// digits.
proof fn lemma_pad2_digits(n: nat)
    ensures
        all_digits(pad2(n as int)),
        digits_value(pad2(n as int)) == n,
        pad2(n as int).len() >= 2,
        n < 100 ==> pad2(n as int).len() == 2,
{
    lemma_dec_nat_digits(n);
    if n < 10 {
        let p = pad2(n as int);
        assert(p =~= seq!['0', digit_char(n as int)]);
        assert(p.drop_last() =~= seq!['0']);
        assert(seq!['0'].drop_last() =~= Seq::<char>::empty());
        assert(digits_value(Seq::<char>::empty()) == 0);
        assert(digit_value('0') == 0);
        assert(digits_value(seq!['0']) == digits_value(Seq::<char>::empty()) * 10 + digit_value('0'));
        assert(is_digit(digit_char(n as int)));
    } else {
        lemma_dec_nat_digits(n / 10);
        assert(dec_nat(n).len() == dec_nat(n / 10).len() + 1);
        if n < 100 {
            assert(dec_nat(n / 10).len() == 1);
        }
    }
}

/// What `format_duration` writes for a non-negative number of seconds reads back: two
/// or more digits of hours, then exactly two of minutes below 60 and two of seconds
/// below 60, separated by `:`, and together they make up the number of seconds.
pub proof fn lemma_duration_reads_back(secs: int)
    requires
        secs >= 0,
    ensures
        ({
            let h = secs / 3600;
            let m = (secs % 3600) / 60;
            let s = secs % 60;
            &&& duration_text(secs) == pad2(h) + seq![':'] + pad2(m) + seq![':'] + pad2(s)
            &&& 0 <= m < 60 && 0 <= s < 60
            &&& h * 3600 + m * 60 + s == secs
            &&& pad2(h).len() >= 2 && pad2(m).len() == 2 && pad2(s).len() == 2
            &&& all_digits(pad2(h)) && all_digits(pad2(m)) && all_digits(pad2(s))
            &&& digits_value(pad2(h)) == h && digits_value(pad2(m)) == m && digits_value(pad2(s))
                == s
        }),
{
    let h = secs / 3600;
    let m = (secs % 3600) / 60;
    let s = secs % 60;
    assert(trunc_rem(secs, 3600) == secs % 3600);
    assert(trunc_rem(secs, 60) == secs % 60);
    assert((secs % 3600) % 60 == secs % 60) by (nonlinear_arith)
        requires
            secs >= 0,
    ;
    assert(h * 3600 + m * 60 + s == secs) by (nonlinear_arith)
        requires
            secs >= 0,
            h == secs / 3600,
            m == (secs % 3600) / 60,
            s == secs % 60,
            (secs % 3600) % 60 == secs % 60,
    ;
    lemma_pad2_digits(h as nat);
    lemma_pad2_digits(m as nat);
    lemma_pad2_digits(s as nat);
}

fn push_pad2(s: &mut String, n: i64)
    ensures
        final(s)@ == old(s)@ + pad2(n as int),
{
    if 0 <= n && n < 10 {
        push_char(s, '0');
        push_decimal_i64(s, n);
        assert(final(s)@ =~= old(s)@ + pad2(n as int));
    } else {
        push_decimal_i64(s, n);
    }
}

/// Renders a number of seconds as `hh:mm:ss`.
pub fn format_duration(secs: i64) -> (res: String)
    ensures
        res@ == duration_text(secs as int),
{
    let (h, m, s): (i64, i64, i64) = if secs >= 0 {
        let u: u64 = secs as u64;
        ((u / 3600) as i64, ((u % 3600) / 60) as i64, (u % 60) as i64)
    } else {
        let u: u64 = if secs == i64::MIN {
            9223372036854775808u64
        } else {
            (-secs) as u64
        };
        (-((u / 3600) as i64), -(((u % 3600) / 60) as i64), -((u % 60) as i64))
    };
    assert(h == trunc_div(secs as int, 3600));
    assert(m == trunc_div(trunc_rem(secs as int, 3600), 60));
    assert(s == trunc_rem(secs as int, 60));
    let mut out = String::new();
    push_pad2(&mut out, h);
    push_char(&mut out, ':');
    push_pad2(&mut out, m);
    push_char(&mut out, ':');
    push_pad2(&mut out, s);
    assert(out@ =~= duration_text(secs as int));
    out
}

/// A console command with its one-line usage.
#[derive(Clone, Copy, Debug)]
pub struct CommandHint {
    pub name: &'static str,
    pub usage: &'static str,
}

/// The console's commands, in the order the hint popup lists them.
pub open spec fn hint_table() -> Seq<CommandHint> {
    seq![
        CommandHint { name: "rooms", usage: "rooms - 列出所有房间" },
        CommandHint { name: "clear", usage: "clear - 清空控制台日志" },
        CommandHint { name: "create", usage: "create <脚本目录> [模式] - 创建房间" },
        CommandHint { name: "select", usage: "select <房间> - 选择房间" },
        CommandHint { name: "stop", usage: "stop <房间> - 停止房间" },
        CommandHint { name: "destroy", usage: "destroy <房间> - 删除房间" },
        CommandHint { name: "restart", usage: "restart <房间> - 重启房间" },
        CommandHint { name: "join", usage: "join <房间> <槽位> [名称] - 玩家上线" },
        CommandHint { name: "leave", usage: "leave <房间> <槽位> - 玩家离线" },
        CommandHint { name: "exit", usage: "exit <房间> <槽位> - 玩家退出" },
        CommandHint { name: "event", usage: "event <房间> <事件名> [数据] [玩家] - 发送事件" },
    ]
}

/// The console's commands with their usages.
pub fn command_hints() -> (res: Vec<CommandHint>)
    ensures
        res@ == hint_table(),
{
    let mut v: Vec<CommandHint> = Vec::new();
    v.push(CommandHint { name: "rooms", usage: "rooms - 列出所有房间" });
    v.push(CommandHint { name: "clear", usage: "clear - 清空控制台日志" });
    v.push(CommandHint { name: "create", usage: "create <脚本目录> [模式] - 创建房间" });
    v.push(CommandHint { name: "select", usage: "select <房间> - 选择房间" });
    v.push(CommandHint { name: "stop", usage: "stop <房间> - 停止房间" });
    v.push(CommandHint { name: "destroy", usage: "destroy <房间> - 删除房间" });
    v.push(CommandHint { name: "restart", usage: "restart <房间> - 重启房间" });
    v.push(CommandHint { name: "join", usage: "join <房间> <槽位> [名称] - 玩家上线" });
    v.push(CommandHint { name: "leave", usage: "leave <房间> <槽位> - 玩家离线" });
    v.push(CommandHint { name: "exit", usage: "exit <房间> <槽位> - 玩家退出" });
    v.push(
        CommandHint { name: "event", usage: "event <房间> <事件名> [数据] [玩家] - 发送事件" },
    );
    assert(v@ =~= hint_table());
    v
}

/// `s` without its leading whitespace (`str::trim_start`).
pub open spec fn trim_start(s: Seq<char>) -> Seq<char>
    decreases s.len(),
{
    if s.len() > 0 && is_space(s[0]) {
        trim_start(s.drop_first())
    } else {
        s
    }
}

/// The characters of `s` before its first whitespace.
pub open spec fn first_word(s: Seq<char>) -> Seq<char>
    decreases s.len(),
{
    if s.len() == 0 || is_space(s[0]) {
        seq![]
    } else {
        seq![s[0]] + first_word(s.drop_first())
    }
}

/// `char::to_ascii_lowercase`.
pub open spec fn ascii_lower(c: char) -> char {
    if 'A' <= c <= 'Z' {
        ((c as u32) + 32) as char
    } else {
        c
    }
}

/// The first `n` elements of `s`, or all of it when it is shorter.
pub open spec fn at_most<T>(s: Seq<T>, n: int) -> Seq<T> {
    if s.len() <= n {
        s
    } else {
        s.take(n)
    }
}

/// Whether a hint is for the command `cmd`.
pub open spec fn named(cmd: Seq<char>) -> spec_fn(CommandHint) -> bool {
    |h: CommandHint| h.name@ == cmd
}

/// Whether a hint's command begins with `cmd`.
pub open spec fn begins_with(cmd: Seq<char>) -> spec_fn(CommandHint) -> bool {
    |h: CommandHint| cmd.is_prefix_of(h.name@)
}

/// `s` with its ASCII capitals made small (`str::to_ascii_lowercase`).
pub open spec fn ascii_lower_text(s: Seq<char>) -> Seq<char> {
    s.map_values(|c: char| ascii_lower(c))
}

proof fn lemma_ascii_lower_char(c: char)
    ensures
        is_space(ascii_lower(c)) == is_space(c),
        ascii_lower(ascii_lower(c)) == ascii_lower(c),
{
    if 'A' <= c <= 'Z' {
        let d = ascii_lower(c);
        assert(97 <= d as u32 <= 122);
    }
}

proof fn lemma_trim_start_lower(s: Seq<char>)
    ensures
        trim_start(ascii_lower_text(s)) == ascii_lower_text(trim_start(s)),
    decreases s.len(),
{
    let l = ascii_lower_text(s);
    if s.len() > 0 {
        lemma_ascii_lower_char(s[0]);
        assert(l[0] == ascii_lower(s[0]));
        assert(l.drop_first() =~= ascii_lower_text(s.drop_first()));
        if is_space(s[0]) {
            lemma_trim_start_lower(s.drop_first());
        }
    }
}

proof fn lemma_first_word_lower(s: Seq<char>)
    ensures
        first_word(ascii_lower_text(s)) == ascii_lower_text(first_word(s)),
    decreases s.len(),
{
    let l = ascii_lower_text(s);
    if s.len() == 0 {
        assert(ascii_lower_text(first_word(s)) =~= Seq::<char>::empty());
    } else {
        lemma_ascii_lower_char(s[0]);
        assert(l[0] == ascii_lower(s[0]));
        assert(l.drop_first() =~= ascii_lower_text(s.drop_first()));
        if is_space(s[0]) {
            assert(ascii_lower_text(first_word(s)) =~= Seq::<char>::empty());
        } else {
            lemma_first_word_lower(s.drop_first());
            assert(ascii_lower_text(seq![s[0]] + first_word(s.drop_first())) =~= seq![ascii_lower(s[0])]
                + ascii_lower_text(first_word(s.drop_first())));
        }
    }
}

/// The hints shown depend on what was typed only up to ASCII case: typing the same line
/// with its capitals made small shows the same hints (so `Re` shows what `re` shows).
pub proof fn lemma_hints_ignore_ascii_case(input: Seq<char>)
    ensures
        matching_hints_spec(ascii_lower_text(input)) == matching_hints_spec(input),
{
    lemma_trim_start_lower(input);
    let trimmed = trim_start(input);
    lemma_first_word_lower(trimmed);
    let w = first_word(trimmed);
    assert forall|i: int| 0 <= i < w.len() implies #[trigger] ascii_lower(ascii_lower(w[i]))
        == ascii_lower(w[i]) by {
        lemma_ascii_lower_char(w[i]);
    }
    assert(ascii_lower_text(ascii_lower_text(w)) =~= ascii_lower_text(w));
    assert(ascii_lower_text(trimmed).len() == trimmed.len());
}

/// The hints shown for what has been typed: every command for an empty line; the one
/// command that the first word names (ignoring ASCII case); otherwise the first five
/// commands that begin with that word.
pub open spec fn matching_hints_spec(input: Seq<char>) -> Seq<CommandHint> {
    let trimmed = trim_start(input);
    if trimmed.len() == 0 {
        hint_table()
    } else {
        let cmd = first_word(trimmed).map_values(|c: char| ascii_lower(c));
        let exact = hint_table().filter(named(cmd));
        if cmd.len() == 0 {
            seq![]
        } else if exact.len() > 0 {
            exact.take(1)
        } else {
            at_most(hint_table().filter(begins_with(cmd)), 5)
        }
    }
}

fn chars_equal(a: &Vec<char>, b: &Vec<char>) -> (res: bool)
    ensures
        res == (a@ == b@),
{
    if a.len() != b.len() {
        return false;
    }
    let mut i: usize = 0;
    while i < a.len()
        invariant
            i <= a.len(),
            a.len() == b.len(),
            a@.take(i as int) == b@.take(i as int),
        decreases a.len() - i,
    {
        if a[i] != b[i] {
            assert(a@[i as int] != b@[i as int]);
            return false;
        }
        assert(a@.take(i + 1) =~= a@.take(i as int).push(a@[i as int]));
        assert(b@.take(i + 1) =~= b@.take(i as int).push(b@[i as int]));
        i = i + 1;
    }
    assert(a@ =~= a@.take(i as int));
    assert(b@ =~= b@.take(i as int));
    true
}

fn chars_prefix(a: &Vec<char>, b: &Vec<char>) -> (res: bool)
    ensures
        res == a@.is_prefix_of(b@),
{
    if a.len() > b.len() {
        return false;
    }
    let mut i: usize = 0;
    while i < a.len()
        invariant
            i <= a.len(),
            a.len() <= b.len(),
            forall|j: int| 0 <= j < i ==> a@[j] == b@[j],
        decreases a.len() - i,
    {
        if a[i] != b[i] {
            return false;
        }
        i = i + 1;
    }
    assert(a@ =~= b@.subrange(0, a@.len() as int));
    true
}

/// The command hints that match the text typed so far.
pub fn matching_command_hints(input: &str) -> (res: Vec<CommandHint>)
    ensures
        res@ == matching_hints_spec(input@),
{
    let cs = chars_of(input);
    let n = cs.len();
    let table = command_hints();
    let mut start: usize = 0;
    assert(cs@.skip(0) =~= cs@);
    while start < n && is_space_char(cs[start])
        invariant
            start <= n,
            n == cs@.len(),
            trim_start(cs@) == trim_start(cs@.skip(start as int)),
        decreases n - start,
    {
        assert(cs@.skip(start as int).drop_first() =~= cs@.skip(start + 1));
        start = start + 1;
    }
    let ghost trimmed = cs@.skip(start as int);
    assert(trim_start(cs@) == trimmed);
    if start == n {
        assert(trimmed.len() == 0);
        return table;
    }
    let mut cmd: Vec<char> = Vec::new();
    let mut end: usize = start;
    while end < n && !is_space_char(cs[end])
        invariant
            start <= end <= n,
            n == cs@.len(),
            trimmed == cs@.skip(start as int),
            cmd@ == cs@.subrange(start as int, end as int).map_values(|c: char| ascii_lower(c)),
            first_word(trimmed) == cs@.subrange(start as int, end as int) + first_word(
                cs@.skip(end as int),
            ),
        decreases n - end,
    {
        let c = cs[end];
        let lc: char = if 'A' <= c && c <= 'Z' {
            ((c as u8) + 32u8) as char
        } else {
            c
        };
        assert(lc == ascii_lower(c)) by {
            if 'A' <= c && c <= 'Z' {
                assert((c as u8) as int == (c as u32) as int);
            }
        }
        cmd.push(lc);
        assert(cs@.skip(end as int).drop_first() =~= cs@.skip(end + 1));
        assert(cs@.subrange(start as int, end + 1) =~= cs@.subrange(start as int, end as int).push(
            c,
        ));
        assert(seq![c] + first_word(cs@.skip(end + 1)) == first_word(cs@.skip(end as int)));
        assert(cs@.subrange(start as int, end as int) + (seq![c] + first_word(cs@.skip(end + 1)))
            =~= cs@.subrange(start as int, end + 1) + first_word(cs@.skip(end + 1)));
        end = end + 1;
    }
    proof {
        if end < n {
            assert(is_space(cs@.skip(end as int)[0]));
        }
        assert(first_word(cs@.skip(end as int)) =~= seq![]);
        assert(first_word(trimmed) =~= cs@.subrange(start as int, end as int));
    }
    let ghost cmd_spec = first_word(trimmed).map_values(|c: char| ascii_lower(c));
    assert(cmd@ =~= cmd_spec);
    if cmd.len() == 0 {
        return Vec::new();
    }
    let mut exact: Vec<CommandHint> = Vec::new();
    let mut prefixed: Vec<CommandHint> = Vec::new();
    let mut i: usize = 0;
    while i < table.len()
        invariant
            i <= table.len(),
            table@ == hint_table(),
            cmd@ == cmd_spec,
            exact@ == table@.take(i as int).filter(named(cmd_spec)),
            prefixed@ == table@.take(i as int).filter(begins_with(cmd_spec)),
        decreases table.len() - i,
    {
        reveal_with_fuel(Seq::<_>::filter, 1);
        let h = table[i];
        let name = chars_of(h.name);
        let ghost t1 = table@.take(i + 1);
        assert(t1.drop_last() =~= table@.take(i as int));
        assert(t1.last() == h);
        assert(t1.filter(named(cmd_spec)) == if named(cmd_spec)(h) {
            table@.take(i as int).filter(named(cmd_spec)).push(h)
        } else {
            table@.take(i as int).filter(named(cmd_spec))
        });
        assert(t1.filter(begins_with(cmd_spec)) == if begins_with(cmd_spec)(h) {
            table@.take(i as int).filter(begins_with(cmd_spec)).push(h)
        } else {
            table@.take(i as int).filter(begins_with(cmd_spec))
        });
        if chars_equal(&name, &cmd) {
            exact.push(h);
        }
        if chars_prefix(&cmd, &name) {
            prefixed.push(h);
        }
        i = i + 1;
    }
    assert(table@.take(table@.len() as int) =~= table@);
    if exact.len() > 0 {
        exact.truncate(1);
        assert(exact@ =~= hint_table().filter(named(cmd_spec)).take(1));
        exact
    } else {
        prefixed.truncate(5);
        assert(prefixed@ =~= at_most(hint_table().filter(begins_with(cmd_spec)), 5));
        prefixed
    }
}

/// The tabs of the control panel.
#[derive(Debug, Clone, Copy, PartialEq, Eq, Structural)]
pub enum Tab {
    Rooms,
    Console,
    Events,
    State,
    Profiler,
    Settings,
}

/// `args[from..to]` joined with single spaces (`[String]::join(" ")`).
pub fn join_args(args: &[String], from: usize, to: usize) -> (res: String)
    requires
        from <= to <= args@.len(),
    ensures
        res@ == join_with_spaces(strings_view(args@).subrange(from as int, to as int)),
{
    let ghost sv = strings_view(args@);
    let mut res = String::new();
    let mut i: usize = from;
    assert(sv.subrange(from as int, from as int) =~= Seq::<Seq<char>>::empty());
    while i < to
        invariant
            from <= i <= to,
            to <= args@.len(),
            sv == strings_view(args@),
            res@ == join_with_spaces(sv.subrange(from as int, i as int)),
        decreases to - i,
    {
        let ghost part = sv.subrange(from as int, i + 1);
        assert(part.drop_last() =~= sv.subrange(from as int, i as int));
        assert(part.last() == args@[i as int]@);
        if i > from {
            proof {
                reveal_strlit(" ");
            }
            res.append(" ");
        } else {
            assert(part =~= seq![args@[i as int]@]);
        }
        res.append(args[i].as_str());
        assert(res@ =~= join_with_spaces(part));
        i = i + 1;
    }
    res
}

/// A console command with its arguments, as plain values.
pub enum CommandView {
    Nothing,
    ListRooms,
    Clear,
    Create { script_dir: Seq<char> },
    Select { room_id: Seq<char> },
    Stop { room_id: Seq<char> },
    Destroy { room_id: Seq<char> },
    Restart { room_id: Seq<char> },
    Join { room_id: Seq<char>, player_index: i32, name: Seq<char> },
    Leave { room_id: Seq<char>, player_index: i32 },
    Exit { room_id: Seq<char>, player_index: i32 },
    Event { room_id: Seq<char>, event_name: Seq<char>, data: Seq<char>, player_index: i32 },
}

/// A console command with its arguments.
#[derive(Debug)]
pub enum ConsoleCommand {
    /// An empty command line.
    Nothing,
    /// `rooms`
    ListRooms,
    /// `clear`
    Clear,
    /// `create <script dir> [mode]`; the mode is read once the directory is found.
    Create { script_dir: String },
    /// `select <room>`
    Select { room_id: String },
    /// `stop <room>`
    Stop { room_id: String },
    /// `destroy <room>`
    Destroy { room_id: String },
    /// `restart <room>`
    Restart { room_id: String },
    /// `join <room> <slot> [name...]`
    Join { room_id: String, player_index: i32, name: String },
    /// `leave <room> <slot>`
    Leave { room_id: String, player_index: i32 },
    /// `exit <room> <slot>`
    Exit { room_id: String, player_index: i32 },
    /// `event <room> <name> [data...] [player]`
    Event { room_id: String, event_name: String, data: String, player_index: i32 },
}

impl View for ConsoleCommand {
    type V = CommandView;

    open spec fn view(&self) -> CommandView {
        match self {
            ConsoleCommand::Nothing => CommandView::Nothing,
            ConsoleCommand::ListRooms => CommandView::ListRooms,
            ConsoleCommand::Clear => CommandView::Clear,
            ConsoleCommand::Create { script_dir } => CommandView::Create { script_dir: script_dir@ },
            ConsoleCommand::Select { room_id } => CommandView::Select { room_id: room_id@ },
            ConsoleCommand::Stop { room_id } => CommandView::Stop { room_id: room_id@ },
            ConsoleCommand::Destroy { room_id } => CommandView::Destroy { room_id: room_id@ },
            ConsoleCommand::Restart { room_id } => CommandView::Restart { room_id: room_id@ },
            ConsoleCommand::Join { room_id, player_index, name } => CommandView::Join {
                room_id: room_id@,
                player_index: *player_index,
                name: name@,
            },
            ConsoleCommand::Leave { room_id, player_index } => CommandView::Leave {
                room_id: room_id@,
                player_index: *player_index,
            },
            ConsoleCommand::Exit { room_id, player_index } => CommandView::Exit {
                room_id: room_id@,
                player_index: *player_index,
            },
            ConsoleCommand::Event { room_id, event_name, data, player_index } => CommandView::Event {
                room_id: room_id@,
                event_name: event_name@,
                data: data@,
                player_index: *player_index,
            },
        }
    }
}

/// The message for a missing argument.
pub open spec fn missing_msg(name: Seq<char>) -> Seq<char> {
    "缺少参数: "@ + name
}

/// The room named by a command's first argument, as `cmd` takes it.
pub open spec fn room_command(a: Seq<Seq<char>>, cmd: spec_fn(Seq<char>) -> CommandView) -> Result<
    CommandView,
    Seq<char>,
> {
    if a.len() < 2 {
        Err(missing_msg("房间"@))
    } else {
        Ok(cmd(a[1]))
    }
}

/// A room and a slot, as `leave` and `exit` take them.
pub open spec fn room_slot_command(
    a: Seq<Seq<char>>,
    cmd: spec_fn(Seq<char>, i32) -> CommandView,
) -> Result<CommandView, Seq<char>> {
    if a.len() < 2 {
        Err(missing_msg("房间"@))
    } else if a.len() < 3 {
        Err(missing_msg("槽位"@))
    } else {
        match parse_i32_spec(a[2]) {
            None => Err(not_integer_msg("槽位"@)),
            Some(i) => Ok(cmd(a[1], i)),
        }
    }
}

/// What a console command line's arguments ask for, or the message of its error.
/// `join` names the player by the remaining arguments, or `Player_<slot>` without them;
/// `event` takes a last argument that reads as an integer, when there are at least five
/// arguments, as the player, and the arguments between the event name and it as data.
pub open spec fn console_command_spec(a: Seq<Seq<char>>) -> Result<CommandView, Seq<char>> {
    if a.len() == 0 {
        Ok(CommandView::Nothing)
    } else if a[0] == "rooms"@ {
        Ok(CommandView::ListRooms)
    } else if a[0] == "clear"@ {
        Ok(CommandView::Clear)
    } else if a[0] == "create"@ {
        if a.len() < 2 {
            Err("用法: create <脚本目录> [模式]"@)
        } else {
            Ok(CommandView::Create { script_dir: a[1] })
        }
    } else if a[0] == "select"@ {
        room_command(a, |r: Seq<char>| CommandView::Select { room_id: r })
    } else if a[0] == "stop"@ {
        room_command(a, |r: Seq<char>| CommandView::Stop { room_id: r })
    } else if a[0] == "destroy"@ {
        room_command(a, |r: Seq<char>| CommandView::Destroy { room_id: r })
    } else if a[0] == "restart"@ {
        room_command(a, |r: Seq<char>| CommandView::Restart { room_id: r })
    } else if a[0] == "join"@ {
        room_slot_command(
            a,
            |r: Seq<char>, i: i32|
                CommandView::Join {
                    room_id: r,
                    player_index: i,
                    name: if a.len() > 3 {
                        join_with_spaces(a.subrange(3, a.len() as int))
                    } else {
                        default_player_name(i)
                    },
                },
        )
    } else if a[0] == "leave"@ {
        room_slot_command(a, |r: Seq<char>, i: i32| CommandView::Leave { room_id: r, player_index: i })
    } else if a[0] == "exit"@ {
        room_slot_command(a, |r: Seq<char>, i: i32| CommandView::Exit { room_id: r, player_index: i })
    } else if a[0] == "event"@ {
        if a.len() < 2 {
            Err(missing_msg("房间"@))
        } else if a.len() < 3 {
            Err(missing_msg("事件名"@))
        } else {
            let last = parse_i32_spec(a.last());
            let end = if a.len() > 4 && last is Some {
                a.len() - 1
            } else {
                a.len() as int
            };
            Ok(
                CommandView::Event {
                    room_id: a[1],
                    event_name: a[2],
                    data: if end > 3 {
                        join_with_spaces(a.subrange(3, end))
                    } else {
                        seq![]
                    },
                    player_index: if a.len() > 4 && last is Some {
                        last->Some_0
                    } else {
                        -1i32
                    },
                },
            )
        }
    } else {
        Err("未知命令: "@ + a[0])
    }
}

fn missing_error(name: &str) -> (res: String)
    ensures
        res@ == missing_msg(name@),
{
    let mut msg = String::from_str("缺少参数: ");
    msg.append(name);
    msg
}

/// Reads a split console command line: which command it is and its arguments.
pub fn parse_console_command(args: &[String]) -> (res: Result<ConsoleCommand, String>)
    ensures
        match res {
            Ok(c) => console_command_spec(strings_view(args@)) == Ok::<CommandView, Seq<char>>(c@),
            Err(m) => console_command_spec(strings_view(args@)) == Err::<CommandView, Seq<char>>(
                m@,
            ),
        },
{
    let ghost a = strings_view(args@);
    let n = args.len();
    if n == 0 {
        return Ok(ConsoleCommand::Nothing);
    }
    assert(a[0] == args@[0]@);
    let cmd = args[0].as_str();
    if str_eq(cmd, "rooms") {
        return Ok(ConsoleCommand::ListRooms);
    }
    if str_eq(cmd, "clear") {
        return Ok(ConsoleCommand::Clear);
    }
    if n >= 2 {
        assert(a[1] == args@[1]@);
    }
    if n >= 3 {
        assert(a[2] == args@[2]@);
    }
    if str_eq(cmd, "create") {
        if n < 2 {
            return Err(String::from_str("用法: create <脚本目录> [模式]"));
        }
        return Ok(ConsoleCommand::Create { script_dir: args[1].clone() });
    }
    let is_select = str_eq(cmd, "select");
    let is_stop = str_eq(cmd, "stop");
    let is_destroy = str_eq(cmd, "destroy");
    let is_restart = str_eq(cmd, "restart");
    if is_select || is_stop || is_destroy || is_restart {
        if n < 2 {
            return Err(missing_error("房间"));
        }
        let room_id = args[1].clone();
        if is_select {
            return Ok(ConsoleCommand::Select { room_id });
        } else if is_stop {
            return Ok(ConsoleCommand::Stop { room_id });
        } else if is_destroy {
            return Ok(ConsoleCommand::Destroy { room_id });
        } else {
            return Ok(ConsoleCommand::Restart { room_id });
        }
    }
    let is_join = str_eq(cmd, "join");
    let is_leave = str_eq(cmd, "leave");
    let is_exit = str_eq(cmd, "exit");
    if is_join || is_leave || is_exit {
        if n < 2 {
            return Err(missing_error("房间"));
        }
        if n < 3 {
            return Err(missing_error("槽位"));
        }
        let player_index = match parse_i32(args[2].as_str()) {
            Some(v) => v,
            None => {
                return Err(not_integer_error("槽位"));
            },
        };
        let room_id = args[1].clone();
        if is_join {
            let name = if n > 3 {
                join_args(args, 3, n)
            } else {
                let mut d = String::from_str("Player_");
                push_decimal_i64(&mut d, player_index as i64);
                d
            };
            assert(strings_view(args@).subrange(3, n as int) == a.subrange(3, a.len() as int));
            return Ok(ConsoleCommand::Join { room_id, player_index, name });
        } else if is_leave {
            return Ok(ConsoleCommand::Leave { room_id, player_index });
        } else {
            return Ok(ConsoleCommand::Exit { room_id, player_index });
        }
    }
    if str_eq(cmd, "event") {
        if n < 2 {
            return Err(missing_error("房间"));
        }
        if n < 3 {
            return Err(missing_error("事件名"));
        }
        let mut player_index: i32 = -1;
        let mut data_end: usize = n;
        if n > 4 {
            assert(a.last() == args@[n - 1]@);
            if let Some(idx) = parse_i32(args[n - 1].as_str()) {
                player_index = idx;
                data_end = n - 1;
            }
        }
        let data = if data_end > 3 {
            join_args(args, 3, data_end)
        } else {
            String::new()
        };
        return Ok(
            ConsoleCommand::Event {
                room_id: args[1].clone(),
                event_name: args[2].clone(),
                data,
                player_index,
            },
        );
    }
    let mut msg = String::from_str("未知命令: ");
    msg.append(cmd);
    Err(msg)
}

} // verus!
