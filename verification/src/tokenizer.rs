//! The tokenizer: turns a raw source string into an ordered sequence of
//! line-tagged tokens.
//!
//! Every maximal run of non-whitespace, non-punctuation characters becomes
//! one token, and each punctuation character (`{ } ( ) ;`) becomes a
//! standalone one-character token. Whitespace (space, carriage return) and
//! newlines are consumed as separators and never emitted; a newline
//! additionally increments the line counter that tags subsequent tokens.
//!
//! The mathematical model is [`spec_tokenize`], a recursive scan over the
//! character sequence that carries the pending run and the current line.

use vstd::prelude::*;

verus! {

/// A token: the literal text span it covers, and the 1-based source line
/// where that span began.
pub struct Token {
    pub value: String,
    pub line: i32,
}

/// Whitespace that separates tokens without ending a line: space and
/// carriage return.
pub open spec fn is_blank_char(c: char) -> bool {
    c == ' ' || c == '\r'
}

/// The five punctuation characters; each is emitted as a standalone
/// one-character token.
pub open spec fn is_punct_char(c: char) -> bool {
    c == '{' || c == '}' || c == '(' || c == ')' || c == ';'
}

/// A character that ends the pending run: blank, newline or punctuation.
pub open spec fn is_separator_char(c: char) -> bool {
    is_blank_char(c) || c == '\n' || is_punct_char(c)
}

/// The model of one token: its text and the line where it began.
pub open spec fn token_model(t: Token) -> (Seq<char>, int) {
    (t.value@, t.line as int)
}

/// The models of a token vector, in order.
pub open spec fn token_models(toks: Seq<Token>) -> Seq<(Seq<char>, int)> {
    toks.map_values(|t: Token| token_model(t))
}

/// Flushing the pending run: an empty run yields nothing, a non-empty run
/// yields one token tagged with the line where the run began.
pub open spec fn flush(pending: Seq<char>, line: int) -> Seq<(Seq<char>, int)> {
    if pending.len() == 0 {
        Seq::empty()
    } else {
        seq![(pending, line)]
    }
}

/// One pass over the remaining source `s`, with `pending` the run read so
/// far and `line` the line it began on: the tokens still to be emitted.
pub open spec fn scan(s: Seq<char>, pending: Seq<char>, line: int) -> Seq<(Seq<char>, int)>
    decreases s.len(),
{
    if s.len() == 0 {
        flush(pending, line)
    } else {
        let c = s[0];
        let rest = s.skip(1);
        if c == '\n' {
            flush(pending, line) + scan(rest, Seq::empty(), line + 1)
        } else if is_blank_char(c) {
            flush(pending, line) + scan(rest, Seq::empty(), line)
        } else if is_punct_char(c) {
            flush(pending, line) + seq![(seq![c], line)] + scan(rest, Seq::empty(), line)
        } else {
            scan(rest, pending.push(c), line)
        }
    }
}

/// The token sequence of a whole source text: the scan started with an
/// empty pending run on line 1.
pub open spec fn spec_tokenize(s: Seq<char>) -> Seq<(Seq<char>, int)> {
    scan(s, Seq::empty(), 1)
}

impl Token {
    /// Builds a token from a text span and the line it began on.
    pub fn build(value: &str, line: i32) -> (t: Token)
        ensures
            t.value@ == value@,
            t.line == line,
    {
        Token { value: value.to_owned(), line }
    }
}

/// Appends `value` as one token tagged with `line`, unless it is empty, in
/// which case the token vector is unchanged. Returns an empty buffer for
/// the caller to accumulate the next run in.
fn push(tokens: &mut Vec<Token>, value: String, line: i32) -> (r: Result<String, &'static str>)
    ensures
        r matches Ok(s) && s@ == Seq::<char>::empty(),
        token_models(final(tokens)@) == token_models(old(tokens)@) + flush(value@, line as int),
{
    if !value.as_str().is_empty() {
        let token = Token { value, line };
        tokens.push(token);
        proof {
            assert(token_models(tokens@) =~= token_models(old(tokens)@) + flush(
                value@,
                line as int,
            ));
        }
        Ok(String::new())
    } else {
        proof {
            assert(value@ =~= Seq::<char>::empty());
            assert(token_models(tokens@) =~= token_models(old(tokens)@) + flush(
                value@,
                line as int,
            ));
        }
        Ok(value)
    }
}

/// Tokenizes a source text: every maximal run of non-separator characters
/// becomes one token, every punctuation character becomes its own
/// one-character token, whitespace and newlines only separate. The result
/// equals the model scan [`spec_tokenize`] and never fails; the `Result`
/// interface is kept so that future lexical errors need not change it.
pub fn tokenize(code: String) -> (r: Result<Vec<Token>, &'static str>)
    requires
        code@.len() < 0x7fff_ffff,
    ensures
        r matches Ok(toks) && token_models(toks@) == spec_tokenize(code@),
{
    let cs: &str = code.as_str();
    let n: usize = cs.unicode_len();
    let mut tokens: Vec<Token> = Vec::new();
    let mut line: i32 = 1;
    let mut i: usize = 0;
    let mut start: usize = 0;

    proof {
        assert(code@.subrange(0, 0) =~= Seq::<char>::empty());
        assert(code@.skip(0) =~= code@);
        assert(token_models(tokens@) =~= Seq::<(Seq<char>, int)>::empty());
        assert(Seq::<(Seq<char>, int)>::empty() + spec_tokenize(code@) =~= spec_tokenize(code@));
    }

    while i < n
        invariant
            cs@ == code@,
            n == code@.len(),
            code@.len() < 0x7fff_ffff,
            start <= i <= n,
            forall|j: int| start <= j < i ==> !is_separator_char(code@[j]),
            1 <= line as int <= 1 + i,
            token_models(tokens@) + scan(
                code@.skip(i as int),
                code@.subrange(start as int, i as int),
                line as int,
            ) == spec_tokenize(code@),
        decreases n - i,
    {
        let ghost pending: Seq<char> = code@.subrange(start as int, i as int);
        proof {
            assert(code@.skip(i as int)[0] == code@[i as int]);
            assert(code@.skip(i as int).skip(1) =~= code@.skip(i as int + 1));
        }
        let c = cs.get_char(i);
        if c == '\n' {
            let run = cs.substring_char(start, i).to_owned();
            push(&mut tokens, run, line)?;
            line = line + 1;
            proof {
                assert(code@.subrange(i as int + 1, i as int + 1) =~= Seq::<char>::empty());
                assert((token_models(tokens@) + scan(
                    code@.skip(i as int + 1),
                    Seq::<char>::empty(),
                    line as int,
                )) =~= spec_tokenize(code@));
            }
            start = i + 1;
        } else if c == ' ' || c == '\r' {
            let run = cs.substring_char(start, i).to_owned();
            push(&mut tokens, run, line)?;
            proof {
                assert(code@.subrange(i as int + 1, i as int + 1) =~= Seq::<char>::empty());
                assert((token_models(tokens@) + scan(
                    code@.skip(i as int + 1),
                    Seq::<char>::empty(),
                    line as int,
                )) =~= spec_tokenize(code@));
            }
            start = i + 1;
        } else if c == '{' || c == '}' || c == '(' || c == ')' || c == ';' {
            let run = cs.substring_char(start, i).to_owned();
            push(&mut tokens, run, line)?;
            let punct = cs.substring_char(i, i + 1).to_owned();
            push(&mut tokens, punct, line)?;
            proof {
                assert(code@.subrange(i as int, i as int + 1) =~= seq![c]);
                assert(flush(code@.subrange(i as int, i as int + 1), line as int) =~= seq![
                    (seq![c], line as int),
                ]);
                assert(code@.subrange(i as int + 1, i as int + 1) =~= Seq::<char>::empty());
                assert((token_models(tokens@) + scan(
                    code@.skip(i as int + 1),
                    Seq::<char>::empty(),
                    line as int,
                )) =~= spec_tokenize(code@));
            }
            start = i + 1;
        } else {
            proof {
                assert(pending.push(c) =~= code@.subrange(start as int, i as int + 1));
            }
        }
        i = i + 1;
    }

    proof {
        assert(code@.skip(n as int) =~= Seq::<char>::empty());
    }
    let run = cs.substring_char(start, n).to_owned();
    push(&mut tokens, run, line)?;
    proof {
        assert(token_models(tokens@) =~= spec_tokenize(code@));
    }
    Ok(tokens)
}

/// Every character of `s` is whitespace: a blank or a newline.
pub open spec fn all_whitespace(s: Seq<char>) -> bool {
    forall|j: int| 0 <= j < s.len() ==> is_blank_char(s[j]) || s[j] == '\n'
}

/// Every character of `s` is a blank (space or carriage return).
pub open spec fn all_blank(s: Seq<char>) -> bool {
    forall|j: int| 0 <= j < s.len() ==> is_blank_char(s[j])
}

/// No character of `s` is a separator: `s` can stand inside one run.
pub open spec fn no_separator(s: Seq<char>) -> bool {
    forall|j: int| 0 <= j < s.len() ==> !is_separator_char(s[j])
}

/// Scanning whitespace only flushes the pending run and emits nothing more.
proof fn lemma_scan_whitespace(s: Seq<char>, pending: Seq<char>, line: int)
    requires
        all_whitespace(s),
    ensures
        scan(s, pending, line) == flush(pending, line),
    decreases s.len(),
{
    if s.len() == 0 {
    } else {
        let next_line: int = if s[0] == '\n' {
            line + 1
        } else {
            line
        };
        lemma_scan_whitespace(s.skip(1), Seq::empty(), next_line);
        assert(scan(s, pending, line) =~= flush(pending, line));
    }
}

/// A source of whitespace alone yields no tokens.
pub proof fn lemma_tokenize_whitespace_only(s: Seq<char>)
    requires
        all_whitespace(s),
    ensures
        spec_tokenize(s) == Seq::<(Seq<char>, int)>::empty(),
{
    lemma_scan_whitespace(s, Seq::empty(), 1);
}

/// A separator-free stretch of source is accumulated whole into the
/// pending run.
proof fn lemma_scan_run(s: Seq<char>, t: Seq<char>, pending: Seq<char>, line: int)
    requires
        no_separator(s),
    ensures
        scan(s + t, pending, line) == scan(t, pending + s, line),
    decreases s.len(),
{
    if s.len() == 0 {
        assert(s + t =~= t);
        assert(pending + s =~= pending);
    } else {
        assert((s + t)[0] == s[0]);
        assert((s + t).skip(1) =~= s.skip(1) + t);
        lemma_scan_run(s.skip(1), t, pending.push(s[0]), line);
        assert(pending.push(s[0]) + s.skip(1) =~= pending + s);
    }
}

/// A non-empty stretch of blanks flushes the pending run and restarts the
/// scan with an empty one; the line does not change.
proof fn lemma_scan_blanks(w: Seq<char>, t: Seq<char>, pending: Seq<char>, line: int)
    requires
        all_blank(w),
        w.len() > 0,
    ensures
        scan(w + t, pending, line) == flush(pending, line) + scan(t, Seq::empty(), line),
    decreases w.len(),
{
    assert((w + t)[0] == w[0]);
    assert((w + t).skip(1) =~= w.skip(1) + t);
    if w.len() == 1 {
        assert(w.skip(1) + t =~= t);
    } else {
        lemma_scan_blanks(w.skip(1), t, Seq::empty(), line);
        assert(flush(Seq::<char>::empty(), line) + scan(t, Seq::empty(), line) =~= scan(
            t,
            Seq::empty(),
            line,
        ));
    }
}

/// A maximal run bordered by blanks comes out as exactly one token, whose
/// value is the run itself and whose line is 1.
pub proof fn lemma_run_is_one_token(w1: Seq<char>, s: Seq<char>, w2: Seq<char>)
    requires
        all_blank(w1),
        all_blank(w2),
        s.len() > 0,
        no_separator(s),
    ensures
        spec_tokenize(w1 + s + w2) == seq![(s, 1int)],
{
    let inner = scan(s + w2, Seq::<char>::empty(), 1);
    lemma_scan_run(s, w2, Seq::empty(), 1);
    assert(Seq::<char>::empty() + s =~= s);
    if w2.len() == 0 {
        assert(s + w2 =~= s + Seq::<char>::empty());
        assert(inner == scan(w2, s, 1));
        assert(scan(w2, s, 1) == flush(s, 1));
    } else {
        assert(w2 + Seq::<char>::empty() =~= w2);
        lemma_scan_blanks(w2, Seq::empty(), s, 1);
        assert(scan(w2, s, 1) == flush(s, 1) + scan(Seq::<char>::empty(), Seq::<char>::empty(), 1));
        assert(flush(s, 1) + scan(Seq::<char>::empty(), Seq::<char>::empty(), 1) =~= flush(s, 1));
    }
    assert(inner == flush(s, 1));
    if w1.len() == 0 {
        assert(w1 + s + w2 =~= s + w2);
        assert(flush(s, 1) =~= seq![(s, 1int)]);
    } else {
        lemma_scan_blanks(w1, s + w2, Seq::empty(), 1);
        assert(w1 + s + w2 =~= w1 + (s + w2));
        assert(flush(Seq::<char>::empty(), 1) + inner =~= inner);
        assert(flush(s, 1) =~= seq![(s, 1int)]);
    }
}

/// A maximal run ended by a punctuation character, with no whitespace
/// between, still comes out as one token of its own; the punctuation
/// follows as a one-character token.
pub proof fn lemma_run_before_punct_is_one_token(s: Seq<char>, p: char)
    requires
        s.len() > 0,
        no_separator(s),
        is_punct_char(p),
    ensures
        spec_tokenize(s + seq![p]) == seq![(s, 1int), (seq![p], 1int)],
{
    lemma_scan_run(s, seq![p], Seq::empty(), 1);
    assert(Seq::<char>::empty() + s =~= s);
    assert(seq![p].skip(1) =~= Seq::<char>::empty());
    assert(scan(seq![p], s, 1) == flush(s, 1) + seq![(seq![p], 1int)] + scan(
        seq![p].skip(1),
        Seq::empty(),
        1,
    ));
    assert(flush(s, 1) + seq![(seq![p], 1int)] + flush(Seq::<char>::empty(), 1) =~= seq![
        (s, 1int),
        (seq![p], 1int),
    ]);
}

/// The shape every emitted token value has: non-empty, and either a
/// separator-free run or a single punctuation character.
pub open spec fn wf_token_value(v: Seq<char>) -> bool {
    v.len() > 0 && (no_separator(v) || (v.len() == 1 && is_punct_char(v[0])))
}

proof fn lemma_scan_values_wf(s: Seq<char>, pending: Seq<char>, line: int)
    requires
        no_separator(pending),
    ensures
        forall|k: int|
            0 <= k < scan(s, pending, line).len() ==> #[trigger] wf_token_value(
                scan(s, pending, line)[k].0,
            ),
    decreases s.len(),
{
    let res = scan(s, pending, line);
    if s.len() == 0 {
        assert forall|k: int| 0 <= k < res.len() implies #[trigger] wf_token_value(res[k].0) by {
            assert(res[k].0 == pending);
        }
    } else {
        let c = s[0];
        let rest = s.skip(1);
        let fl = flush(pending, line);
        if c == '\n' {
            lemma_scan_values_wf(rest, Seq::empty(), line + 1);
            let tail = scan(rest, Seq::empty(), line + 1);
            assert forall|k: int| 0 <= k < res.len() implies #[trigger] wf_token_value(
                res[k].0,
            ) by {
                if k < fl.len() {
                    assert(res[k].0 == pending);
                } else {
                    assert(res[k] == tail[k - fl.len()]);
                }
            }
        } else if is_blank_char(c) {
            lemma_scan_values_wf(rest, Seq::empty(), line);
            let tail = scan(rest, Seq::empty(), line);
            assert forall|k: int| 0 <= k < res.len() implies #[trigger] wf_token_value(
                res[k].0,
            ) by {
                if k < fl.len() {
                    assert(res[k].0 == pending);
                } else {
                    assert(res[k] == tail[k - fl.len()]);
                }
            }
        } else if is_punct_char(c) {
            lemma_scan_values_wf(rest, Seq::empty(), line);
            let tail = scan(rest, Seq::empty(), line);
            assert(wf_token_value(seq![c]));
            assert forall|k: int| 0 <= k < res.len() implies #[trigger] wf_token_value(
                res[k].0,
            ) by {
                assert(res == fl + seq![(seq![c], line)] + tail);
                if k < fl.len() {
                    assert(res[k].0 == pending);
                } else if k == fl.len() {
                    assert(res[k].0 == seq![c]);
                } else {
                    assert(res[k] == tail[k - fl.len() - 1]);
                }
            }
        } else {
            assert(no_separator(pending.push(c)));
            lemma_scan_values_wf(rest, pending.push(c), line);
            let tail = scan(rest, pending.push(c), line);
            assert forall|k: int| 0 <= k < res.len() implies #[trigger] wf_token_value(
                res[k].0,
            ) by {
                assert(res[k] == tail[k]);
            }
        }
    }
}

/// Every token a source yields is non-empty, and is either a
/// separator-free run or a single punctuation character.
pub proof fn lemma_tokenize_values_wf(s: Seq<char>)
    ensures
        forall|k: int|
            0 <= k < spec_tokenize(s).len() ==> #[trigger] wf_token_value(spec_tokenize(s)[k].0),
{
    lemma_scan_values_wf(s, Seq::empty(), 1);
}

/// The concatenation of `vals` with one space between consecutive values.
pub open spec fn join_with_spaces(vals: Seq<Seq<char>>) -> Seq<char>
    decreases vals.len(),
{
    if vals.len() == 0 {
        Seq::empty()
    } else if vals.len() == 1 {
        vals[0]
    } else {
        vals[0] + seq![' '] + join_with_spaces(vals.skip(1))
    }
}

proof fn lemma_scan_join(vals: Seq<Seq<char>>, line: int)
    requires
        forall|k: int| 0 <= k < vals.len() ==> #[trigger] wf_token_value(vals[k]),
    ensures
        scan(join_with_spaces(vals), Seq::empty(), line) == vals.map_values(
            |v: Seq<char>| (v, line),
        ),
    decreases vals.len(),
{
    let target = vals.map_values(|v: Seq<char>| (v, line));
    if vals.len() == 0 {
        assert(scan(join_with_spaces(vals), Seq::empty(), line) =~= target);
    } else {
        let head = vals[0];
        assert(wf_token_value(vals[0]));
        if vals.len() == 1 {
            if no_separator(head) {
                assert(head + Seq::<char>::empty() =~= head);
                lemma_scan_run(head, Seq::empty(), Seq::empty(), line);
                assert(Seq::<char>::empty() + head =~= head);
                assert(scan(Seq::<char>::empty(), head, line) == flush(head, line));
                assert(flush(head, line) =~= target);
            } else {
                let c = head[0];
                assert(head =~= seq![c]);
                assert(head.skip(1) =~= Seq::<char>::empty());
                assert(scan(head, Seq::empty(), line) == flush(Seq::<char>::empty(), line) + seq![
                    (seq![c], line),
                ] + scan(head.skip(1), Seq::empty(), line));
                assert(scan(head.skip(1), Seq::empty(), line) == flush(
                    Seq::<char>::empty(),
                    line,
                ));
                assert(scan(head, Seq::empty(), line) =~= target);
            }
        } else {
            let rest_join = join_with_spaces(vals.skip(1));
            let joined = head + seq![' '] + rest_join;
            lemma_scan_join(vals.skip(1), line);
            let rest_target = vals.skip(1).map_values(|v: Seq<char>| (v, line));
            if no_separator(head) {
                assert(joined =~= head + (seq![' '] + rest_join));
                lemma_scan_run(head, seq![' '] + rest_join, Seq::empty(), line);
                assert(Seq::<char>::empty() + head =~= head);
                lemma_scan_blanks(seq![' '], rest_join, head, line);
                assert(scan(joined, Seq::empty(), line) == flush(head, line) + scan(
                    rest_join,
                    Seq::empty(),
                    line,
                ));
                assert(flush(head, line) + rest_target =~= target);
            } else {
                let c = head[0];
                assert(head =~= seq![c]);
                assert(joined[0] == c);
                assert(joined.skip(1) =~= seq![' '] + rest_join);
                lemma_scan_blanks(seq![' '], rest_join, Seq::empty(), line);
                assert(scan(joined, Seq::empty(), line) =~= seq![(seq![c], line)] + scan(
                    rest_join,
                    Seq::empty(),
                    line,
                ));
                assert(seq![(seq![c], line)] + rest_target =~= target);
            }
        }
    }
}

/// Any number of distinct runs, each bordered by whitespace, come out as
/// distinct tokens, exactly one per run, in source order.
pub proof fn lemma_runs_are_tokens_in_order(runs: Seq<Seq<char>>)
    requires
        forall|k: int|
            0 <= k < runs.len() ==> (#[trigger] runs[k]).len() > 0 && no_separator(runs[k]),
    ensures
        spec_tokenize(join_with_spaces(runs)) == runs.map_values(|v: Seq<char>| (v, 1int)),
{
    assert forall|k: int| 0 <= k < runs.len() implies #[trigger] wf_token_value(runs[k]) by {
        assert(runs[k].len() > 0 && no_separator(runs[k]));
    }
    lemma_scan_join(runs, 1);
}

/// Re-tokenizing the token values of any source, joined with single
/// spaces, reproduces exactly those values, each on line 1.
pub proof fn lemma_retokenize_join(s: Seq<char>)
    ensures
        spec_tokenize(join_with_spaces(spec_tokenize(s).map_values(|m: (Seq<char>, int)| m.0)))
            == spec_tokenize(s).map_values(|m: (Seq<char>, int)| (m.0, 1int)),
{
    let vals = spec_tokenize(s).map_values(|m: (Seq<char>, int)| m.0);
    lemma_tokenize_values_wf(s);
    assert(forall|k: int| 0 <= k < vals.len() ==> #[trigger] wf_token_value(vals[k]));
    lemma_scan_join(vals, 1);
    assert(vals.map_values(|v: Seq<char>| (v, 1int)) =~= spec_tokenize(s).map_values(
        |m: (Seq<char>, int)| (m.0, 1int),
    ));
}

} // verus!
