use vstd::prelude::*;

use crate::ast::{Expression, SpecExpr};
use crate::env::Variables;
use crate::error::{EngineError, SpecError};
use crate::eval::{eval, opt_view, Env};
use crate::lexer::{is_name_char, lemma_variable_line, tokenize_chars};
use crate::parser::parse_line;
use crate::text::{
    chars_of, drop_cr, is_space, lines_from, lines_of, push_all, slice_of, split_lines, string_of,
    trim, trim_chars, trim_end, trim_start,
};

verus! {

/// Evaluates source and template files against one shared environment.
#[derive(Debug, Clone)]
pub struct TemplateEngine {
    /// The variables assigned so far.
    pub variables: Variables,
    /// For the file being processed: the value computed for each evaluated
    /// line, with that line's index, in increasing order of index.
    pub template_results: Vec<(Option<String>, usize)>,
}

impl Default for TemplateEngine {
    fn default() -> (r: Self)
        ensures
            r.variables@ == Map::<Seq<char>, Seq<char>>::empty(),
            r.template_results@ == Seq::<(Option<String>, usize)>::empty(),
    {
        TemplateEngine { variables: Variables::new(), template_results: Vec::new() }
    }
}

/// A computed value and the index of the line it replaces.
pub type SpecResult = (Option<Seq<char>>, int);

/// The value of a list of template results.
pub open spec fn results_view(v: Seq<(Option<String>, usize)>) -> Seq<SpecResult> {
    v.map_values(|p: (Option<String>, usize)| (opt_view(p.0), p.1 as int))
}

/// A trimmed line that is delimited by `{{` and `}}`.
pub open spec fn is_directive(t: Seq<char>) -> bool {
    t.len() >= 2 && t[0] == '{' && t[1] == '{' && t[t.len() - 2] == '}' && t[t.len() - 1] == '}'
}

/// The expression text that a line holds: in a source file every line that
/// is not blank, in a template file the inside of a directive, trimmed.
pub open spec fn line_job(line: Seq<char>, source: bool) -> Option<Seq<char>> {
    if source {
        if trim(line).len() > 0 {
            Some(line)
        } else {
            None
        }
    } else {
        let t = trim(line);
        if is_directive(t) {
            Some(trim(t.subrange(2, t.len() - 2)))
        } else {
            None
        }
    }
}

/// The state after evaluating the lines of one file, up to its first error.
pub struct FileRun {
    pub env: Env,
    pub results: Seq<SpecResult>,
    pub error: Option<SpecError>,
}

/// Evaluates `lines` from index `i` on, in order, appending one result for
/// each line that holds an expression.
pub open spec fn run_lines(
    lines: Seq<Seq<char>>,
    source: bool,
    i: int,
    env: Env,
    results: Seq<SpecResult>,
) -> FileRun
    decreases lines.len() - i,
{
    if i < 0 || i >= lines.len() {
        FileRun { env, results, error: None }
    } else {
        match line_job(lines[i], source) {
            None => run_lines(lines, source, i + 1, env, results),
            Some(text) => match parse_line(text) {
                Err(e) => FileRun { env, results, error: Some(e) },
                Ok(expr) => match eval(expr, env) {
                    Err(e) => FileRun { env, results, error: Some(e) },
                    Ok(p) => run_lines(lines, source, i + 1, p.1, results.push((p.0, i))),
                },
            },
        }
    }
}

/// Evaluates a whole file, source (`true`) or template (`false`).
pub open spec fn run_file(content: Seq<char>, source: bool, env: Env, results: Seq<SpecResult>) -> FileRun {
    run_lines(lines_of(content), source, 0, env, results)
}

/// The engine `after` holds the state that `run` describes, and `r` reports
/// its error.
pub open spec fn file_outcome(r: Result<(), EngineError>, after: TemplateEngine, run: FileRun) -> bool {
    &&& after.variables@ == run.env
    &&& results_view(after.template_results@) == run.results
    &&& match r {
        Ok(_) => run.error is None,
        Err(e) => run.error == Some(e@),
    }
}

/// The text that a result puts in place of its line.
pub open spec fn out_text(o: Option<Seq<char>>) -> Seq<char> {
    match o {
        Some(s) => s,
        None => seq![],
    }
}

/// The output for `lines` from index `i` on, with `results` read from
/// position `k`: a line whose index is that of the next result is replaced by
/// it, every other line is kept, and each ends with a newline.
pub open spec fn render_from(lines: Seq<Seq<char>>, results: Seq<SpecResult>, i: int, k: int) -> Seq<
    char,
>
    decreases lines.len() - i,
{
    if i < 0 || i >= lines.len() {
        seq![]
    } else if 0 <= k < results.len() && results[k].1 == i {
        out_text(results[k].0) + seq!['\n'] + render_from(lines, results, i + 1, k + 1)
    } else {
        lines[i] + seq!['\n'] + render_from(lines, results, i + 1, k)
    }
}

/// The rendered form of `content`.
pub open spec fn render(content: Seq<char>, results: Seq<SpecResult>) -> Seq<char> {
    render_from(lines_of(content), results, 0, 0)
}

/// Renders the files from index `i` on, after those in `done`, in the
/// environment `env`; the first error ends the whole batch.
pub open spec fn render_all_from(
    files: Seq<(Seq<char>, bool)>,
    i: int,
    env: Env,
    done: Seq<Seq<char>>,
) -> Result<Seq<Seq<char>>, SpecError>
    decreases files.len() - i,
{
    if i < 0 || i >= files.len() {
        Ok(done)
    } else {
        let run = run_file(files[i].0, files[i].1, env, seq![]);
        match run.error {
            Some(e) => Err(e),
            None => render_all_from(files, i + 1, run.env, done.push(render(files[i].0, run.results))),
        }
    }
}

/// Renders a batch of files against one environment, starting empty.
pub open spec fn render_all(files: Seq<(Seq<char>, bool)>) -> Result<Seq<Seq<char>>, SpecError> {
    render_all_from(files, 0, Map::empty(), seq![])
}

/// The value of a batch of input files.
pub open spec fn files_view(v: Seq<(String, bool)>) -> Seq<(Seq<char>, bool)> {
    v.map_values(|p: (String, bool)| (p.0@, p.1))
}

/// `s` with a newline added at its end, unless it is empty or already ends
/// with one.
pub open spec fn with_final_newline(s: Seq<char>) -> Seq<char> {
    if s.len() == 0 || s.last() == '\n' {
        s
    } else {
        s.push('\n')
    }
}

/// The lines of `ls`, each followed by a newline.
pub open spec fn join_lines(ls: Seq<Seq<char>>) -> Seq<char>
    decreases ls.len(),
{
    if ls.len() == 0 {
        seq![]
    } else {
        join_lines(ls.drop_last()) + ls.last() + seq!['\n']
    }
}

proof fn lemma_join_lines_of(s: Seq<char>, i: int, done: Seq<Seq<char>>, cur: Seq<char>)
    requires
        0 <= i <= s.len(),
        forall|k: int| i <= k < s.len() ==> s[k] != '\r',
        forall|k: int| 0 <= k < cur.len() ==> cur[k] != '\r' && cur[k] != '\n',
    ensures
        join_lines(lines_from(s, i, done, cur)) == join_lines(done) + with_final_newline(
            cur + s.subrange(i, s.len() as int),
        ),
    decreases s.len() - i,
{
    let rest = s.subrange(i, s.len() as int);
    if i == s.len() {
        assert(cur + rest =~= cur);
        if cur.len() > 0 {
            assert(done.push(cur).drop_last() =~= done);
            assert(join_lines(done) + cur.push('\n') =~= join_lines(done) + cur + seq!['\n']);
        } else {
            assert(join_lines(done) + cur =~= join_lines(done));
        }
    } else if s[i] == '\n' {
        let after = s.subrange(i + 1, s.len() as int);
        assert(drop_cr(cur) == cur);
        lemma_join_lines_of(s, i + 1, done.push(cur), seq![]);
        assert(done.push(cur).drop_last() =~= done);
        assert(seq![] + after =~= after);
        assert(cur + rest =~= cur.push('\n') + after);
        if after.len() == 0 {
            assert(cur.push('\n') + after =~= cur.push('\n'));
            assert(join_lines(done) + cur + seq!['\n'] + seq![] =~= join_lines(done) + cur.push(
                '\n',
            ));
        } else {
            assert((cur.push('\n') + after).last() == after.last());
            assert((cur.push('\n') + after).push('\n') =~= cur.push('\n') + after.push('\n'));
            assert(join_lines(done) + cur + seq!['\n'] + with_final_newline(after)
                =~= join_lines(done) + (cur.push('\n') + with_final_newline(after)));
        }
    } else {
        lemma_join_lines_of(s, i + 1, done, cur.push(s[i]));
        assert(cur.push(s[i]) + s.subrange(i + 1, s.len() as int) =~= cur + rest);
    }
}

proof fn lemma_render_without_results(ls: Seq<Seq<char>>, i: int)
    requires
        0 <= i <= ls.len(),
    ensures
        join_lines(ls) == join_lines(ls.subrange(0, i)) + render_from(ls, seq![], i, 0),
    decreases ls.len() - i,
{
    if i == ls.len() {
        assert(ls.subrange(0, i) =~= ls);
        assert(join_lines(ls) + Seq::<char>::empty() =~= join_lines(ls));
    } else {
        lemma_render_without_results(ls, i + 1);
        assert(ls.subrange(0, i + 1).drop_last() =~= ls.subrange(0, i));
        assert(join_lines(ls.subrange(0, i + 1)) + render_from(ls, seq![], i + 1, 0)
            =~= join_lines(ls.subrange(0, i)) + render_from(ls, seq![], i, 0));
    }
}

proof fn lemma_run_without_directives(lines: Seq<Seq<char>>, i: int, env: Env)
    requires
        0 <= i <= lines.len(),
        forall|k: int| 0 <= k < lines.len() ==> !is_directive(trim(#[trigger] lines[k])),
    ensures
        run_lines(lines, false, i, env, seq![]) == (FileRun { env, results: seq![], error: None }),
    decreases lines.len() - i,
{
    if i < lines.len() {
        lemma_run_without_directives(lines, i + 1, env);
    }
}

/// A template file without directive lines assigns nothing and renders to
/// its own lines, each ended by a newline; where its text holds no carriage
/// return, that is the text itself, with a newline added at the end where it
/// had none.
pub proof fn lemma_template_without_directives(content: Seq<char>, env: Env)
    requires
        forall|k: int|
            0 <= k < lines_of(content).len() ==> !is_directive(trim(#[trigger] lines_of(content)[k])),
    ensures
        run_file(content, false, env, seq![]) == (FileRun { env, results: seq![], error: None }),
        render(content, seq![]) == join_lines(lines_of(content)),
        (forall|k: int| 0 <= k < content.len() ==> content[k] != '\r') ==> render(content, seq![])
            == with_final_newline(content),
        render_all(seq![(content, false)]) == Ok::<Seq<Seq<char>>, SpecError>(
            seq![render(content, seq![])],
        ),
        render_all(seq![(content, false)]) == Ok::<Seq<Seq<char>>, SpecError>(
            seq![join_lines(lines_of(content))],
        ),
{
    let ls = lines_of(content);
    lemma_run_without_directives(ls, 0, env);
    lemma_run_without_directives(ls, 0, Map::empty());
    lemma_render_without_results(ls, 0);
    assert(ls.subrange(0, 0) =~= Seq::<Seq<char>>::empty());
    assert(Seq::<char>::empty() + render_from(ls, seq![], 0, 0) =~= render_from(ls, seq![], 0, 0));
    if forall|k: int| 0 <= k < content.len() ==> content[k] != '\r' {
        lemma_join_lines_of(content, 0, seq![], seq![]);
        assert(Seq::<char>::empty() + content.subrange(0, content.len() as int) =~= content);
        assert(join_lines(Seq::<Seq<char>>::empty()) + with_final_newline(content) =~= with_final_newline(content));
    }
    let files = seq![(content, false)];
    let d1 = Seq::<Seq<char>>::empty().push(render(content, seq![]));
    assert(d1 =~= seq![render(content, seq![])]);
    assert(files[0] == (content, false));
    assert(render_all_from(files, 1, Map::empty(), d1) == Ok::<Seq<Seq<char>>, SpecError>(d1));
}

proof fn lemma_lines_with_final_newline(s: Seq<char>, i: int, done: Seq<Seq<char>>, cur: Seq<char>)
    requires
        0 <= i <= s.len(),
        forall|k: int| 0 <= k < s.len() ==> s[k] != '\r',
        forall|k: int| 0 <= k < cur.len() ==> cur[k] != '\r',
        (cur + s.subrange(i, s.len() as int)).len() > 0,
        (cur + s.subrange(i, s.len() as int)).last() != '\n',
    ensures
        lines_from(s.push('\n'), i, done, cur) == lines_from(s, i, done, cur),
    decreases s.len() - i,
{
    let t = s.push('\n');
    let rest = s.subrange(i, s.len() as int);
    if i == s.len() {
        assert(cur + rest =~= cur);
        assert(drop_cr(cur) == cur);
        assert(lines_from(t, i + 1, done.push(cur), seq![]) == done.push(cur));
    } else {
        assert(t[i] == s[i]);
        let after = s.subrange(i + 1, s.len() as int);
        if s[i] == '\n' {
            assert(cur + rest =~= cur.push('\n') + after);
            if after.len() == 0 {
                assert(cur.push('\n') + after =~= cur.push('\n'));
            }
            assert(seq![] + after =~= after);
            assert((cur.push('\n') + after).last() == after.last());
            lemma_lines_with_final_newline(s, i + 1, done.push(drop_cr(cur)), seq![]);
        } else {
            assert(cur.push(s[i]) + after =~= cur + rest);
            lemma_lines_with_final_newline(s, i + 1, done, cur.push(s[i]));
        }
    }
}

/// Rendering a template without directive lines a second time changes
/// nothing, where its text holds no carriage return.
pub proof fn lemma_rerender_unchanged(content: Seq<char>)
    requires
        forall|k: int|
            0 <= k < lines_of(content).len() ==> !is_directive(trim(#[trigger] lines_of(content)[k])),
        forall|k: int| 0 <= k < content.len() ==> content[k] != '\r',
    ensures
        render_all(seq![(render(content, seq![]), false)]) == Ok::<Seq<Seq<char>>, SpecError>(
            seq![render(content, seq![])],
        ),
{
    lemma_template_without_directives(content, Map::empty());
    let r = render(content, seq![]);
    assert(r == with_final_newline(content));
    if content.len() > 0 && content.last() != '\n' {
        assert(Seq::<char>::empty() + content.subrange(0, content.len() as int) =~= content);
        lemma_lines_with_final_newline(content, 0, seq![], seq![]);
        assert(lines_of(r) == lines_of(content));
        assert(forall|k: int| 0 <= k < r.len() ==> r[k] != '\r') by {
            assert forall|k: int| 0 <= k < r.len() implies r[k] != '\r' by {
                if k < content.len() {
                    assert(r[k] == content[k]);
                }
            }
        }
    }
    lemma_template_without_directives(r, Map::empty());
    assert(with_final_newline(r) == r);
}

/// Files of one batch share their environment: the second file is evaluated
/// in the environment that the first one left, so it sees what the first
/// assigned; an error in either ends the batch.
pub proof fn lemma_batch_shares_environment(a: Seq<char>, a_source: bool, b: Seq<char>, b_source: bool)
    ensures
        ({
            let ra = run_file(a, a_source, Map::empty(), seq![]);
            let rb = run_file(b, b_source, ra.env, seq![]);
            render_all(seq![(a, a_source), (b, b_source)]) == match (ra.error, rb.error) {
                (Some(e), _) => Err(e),
                (None, Some(e)) => Err(e),
                (None, None) => Ok(seq![render(a, ra.results), render(b, rb.results)]),
            }
        }),
{
    let files = seq![(a, a_source), (b, b_source)];
    let ra = run_file(a, a_source, Map::empty(), seq![]);
    let rb = run_file(b, b_source, ra.env, seq![]);
    assert(files[0] == (a, a_source) && files[1] == (b, b_source));
    let d1 = Seq::<Seq<char>>::empty().push(render(a, ra.results));
    let d2 = d1.push(render(b, rb.results));
    assert(d2 =~= seq![render(a, ra.results), render(b, rb.results)]);
    assert(render_all_from(files, 2, rb.env, d2) == Ok::<Seq<Seq<char>>, SpecError>(d2));
    assert(render_all_from(files, 1, ra.env, d1) == match rb.error {
        Some(e) => Err(e),
        None => render_all_from(files, 2, rb.env, d2),
    });
}

proof fn lemma_single_line(s: Seq<char>, i: int, done: Seq<Seq<char>>, cur: Seq<char>)
    requires
        0 <= i <= s.len(),
        forall|k: int| i <= k < s.len() ==> s[k] != '\n',
        (cur + s.subrange(i, s.len() as int)).len() > 0,
    ensures
        lines_from(s, i, done, cur) == done.push(cur + s.subrange(i, s.len() as int)),
    decreases s.len() - i,
{
    if i == s.len() {
        assert(cur + s.subrange(i, s.len() as int) =~= cur);
    } else {
        assert(cur.push(s[i]) + s.subrange(i + 1, s.len() as int) =~= cur + s.subrange(
            i,
            s.len() as int,
        ));
        lemma_single_line(s, i + 1, done, cur.push(s[i]));
    }
}

/// The directive line `{{ $name }}`.
pub open spec fn read_directive(x: Seq<char>) -> Seq<char> {
    seq!['{', '{', ' ', '$'] + x + seq![' ', '}', '}']
}

/// In a template, the single directive `{{ $name }}` for a defined variable
/// is replaced by that variable's value, and assigns nothing.
pub proof fn lemma_read_directive(x: Seq<char>, env: Env)
    requires
        forall|k: int| 0 <= k < x.len() ==> is_name_char(x[k]),
        env.contains_key(x),
    ensures
        run_file(read_directive(x), false, env, seq![]) == (FileRun {
            env,
            results: seq![(Some(env[x]), 0)],
            error: None,
        }),
        render(read_directive(x), seq![(Some(env[x]), 0)]) == env[x].push('\n'),
{
    let line = read_directive(x);
    let n = x.len() as int;
    assert(line.len() == n + 7);
    assert(forall|k: int| 4 <= k < n + 4 ==> line[k] == x[k - 4]);
    assert(forall|k: int| 0 <= k < line.len() ==> line[k] != '\n') by {
        assert forall|k: int| 0 <= k < line.len() implies line[k] != '\n' by {
            if 4 <= k < n + 4 {
                assert(is_name_char(x[k - 4]));
            }
        }
    }
    lemma_single_line(line, 0, seq![], seq![]);
    assert(Seq::<char>::empty() + line.subrange(0, line.len() as int) =~= line);
    let ls = lines_of(line);
    assert(ls =~= seq![line]);
    // The line is already trimmed and is a directive.
    assert(trim_start(line) == line);
    assert(trim_end(line) == line);
    assert(is_directive(line));
    let inner = line.subrange(2, line.len() - 2);
    let name = seq!['$'] + x;
    assert(inner.drop_first() =~= name.push(' '));
    assert(trim_start(inner) == trim_start(name.push(' ')));
    assert(trim_start(name.push(' ')) == name.push(' '));
    assert(name.push(' ').drop_last() =~= name);
    assert(name.last() != ' ' && !is_space(name.last())) by {
        if n > 0 {
            assert(name.last() == x[n - 1]);
        }
    }
    assert(trim_end(name) == name);
    assert(trim(inner) == name);
    assert(line_job(line, false) == Some(name));
    lemma_variable_line(x);
    assert(parse_line(name) == Ok::<SpecExpr, SpecError>(SpecExpr::VariableValue(x)));
    let results = Seq::<SpecResult>::empty().push((Some(env[x]), 0int));
    assert(results =~= seq![(Some(env[x]), 0int)]);
    assert(run_lines(ls, false, 1, env, results) == (FileRun { env, results, error: None }));
    assert(render_from(ls, results, 1, 1) == Seq::<char>::empty());
    assert(out_text(Some(env[x])) + seq!['\n'] + Seq::<char>::empty() =~= env[x].push('\n'));
}

/// A variable that the first file of a batch assigns can be read by a
/// `{{ $name }}` directive in the second file, which renders to its value.
pub proof fn lemma_second_file_reads_variable(a: Seq<char>, a_source: bool, x: Seq<char>)
    requires
        forall|k: int| 0 <= k < x.len() ==> is_name_char(x[k]),
        run_file(a, a_source, Map::empty(), seq![]).error is None,
        run_file(a, a_source, Map::empty(), seq![]).env.contains_key(x),
    ensures
        ({
            let ra = run_file(a, a_source, Map::empty(), seq![]);
            render_all(seq![(a, a_source), (read_directive(x), false)]) == Ok::<
                Seq<Seq<char>>,
                SpecError,
            >(seq![render(a, ra.results), ra.env[x].push('\n')])
        }),
{
    let ra = run_file(a, a_source, Map::empty(), seq![]);
    lemma_batch_shares_environment(a, a_source, read_directive(x), false);
    lemma_read_directive(x, ra.env);
}

/// The expression text of a line, if it holds one.
fn line_text(line: &Vec<char>, source: bool) -> (r: Option<Vec<char>>)
    ensures
        match r {
            Some(t) => line_job(line@, source) == Some(t@),
            None => line_job(line@, source) is None,
        },
{
    let t = trim_chars(line);
    if source {
        if t.len() > 0 {
            Some(slice_of(line, 0, line.len()))
        } else {
            None
        }
    } else {
        let n = t.len();
        if n >= 2 && t[0] == '{' && t[1] == '{' && t[n - 2] == '}' && t[n - 1] == '}' {
            assert(n >= 4);
            let inner = slice_of(&t, 2, n - 2);
            Some(trim_chars(&inner))
        } else {
            None
        }
    }
}

impl TemplateEngine {
    /// Processes source (`true`) and template (`false`) files in order, against
    /// one environment shared by all of them, and returns the rendered content
    /// of each. The first error ends the batch and is returned alone.
    pub fn parse_files(input: Vec<(String, bool)>) -> (r: Result<Vec<String>, EngineError>)
        ensures
            match r {
                Ok(v) => render_all(files_view(input@)) == Ok::<Seq<Seq<char>>, SpecError>(
                    v@.map_values(|s: String| s@),
                ),
                Err(e) => render_all(files_view(input@)) == Err::<Seq<Seq<char>>, SpecError>(e@),
            },
    {
        let mut results: Vec<String> = Vec::new();
        let mut engine = Self::default();
        let ghost fs = files_view(input@);
        let n = input.len();
        assert(results@.map_values(|s: String| s@) =~= Seq::<Seq<char>>::empty());
        assert(results_view(engine.template_results@) =~= Seq::<SpecResult>::empty());
        for i in 0..n
            invariant
                n == input.len(),
                fs == files_view(input@),
                engine.template_results@.len() == 0,
                render_all_from(
                    fs,
                    i as int,
                    engine.variables@,
                    results@.map_values(|s: String| s@),
                ) == render_all(fs),
        {
            let content = &input[i].0;
            let source = input[i].1;
            assert(results_view(engine.template_results@) =~= Seq::<SpecResult>::empty());
            engine.evaluate_file(content, source)?;
            let rendered = engine.new_file_contents(content);
            let ghost before = results@.map_values(|s: String| s@);
            results.push(rendered);
            assert(results@.map_values(|s: String| s@) =~= before.push(rendered@));
            engine.template_results = Vec::new();
        }
        Ok(results)
    }

    fn evaluate_file(&mut self, content: &String, source: bool) -> (r: Result<(), EngineError>)
        ensures
            file_outcome(
                r,
                *final(self),
                run_file(
                    content@,
                    source,
                    old(self).variables@,
                    results_view(old(self).template_results@),
                ),
            ),
    {
        let cs = chars_of(content.as_str());
        let lines = split_lines(&cs);
        let n = lines.len();
        let ghost ls = lines@.map_values(|l: Vec<char>| l@);
        let mut i: usize = 0;
        while i < n
            invariant
                n == lines.len(),
                i <= n,
                ls == lines@.map_values(|l: Vec<char>| l@),
                ls == lines_of(content@),
                run_lines(ls, source, i as int, self.variables@, results_view(self.template_results@))
                    == run_file(
                    content@,
                    source,
                    old(self).variables@,
                    results_view(old(self).template_results@),
                ),
            decreases n - i,
        {
            assert(ls[i as int] == lines[i as int]@);
            match line_text(&lines[i], source) {
                None => {},
                Some(text) => {
                    let tokens = tokenize_chars(&text)?;
                    let expression = Expression::from_tokens(tokens)?;
                    let value = self.evaluate_expression(expression)?;
                    let ghost before = results_view(self.template_results@);
                    self.template_results.push((value, i));
                    assert(results_view(self.template_results@) =~= before.push(
                        (opt_view(value), i as int),
                    ));
                },
            }
            i = i + 1;
        }
        Ok(())
    }

    /// Evaluates every line of a source file that is not blank, in order,
    /// and records what each produced.
    pub fn evaluate_source_file(&mut self, content: String) -> (r: Result<(), EngineError>)
        ensures
            file_outcome(
                r,
                *final(self),
                run_file(
                    content@,
                    true,
                    old(self).variables@,
                    results_view(old(self).template_results@),
                ),
            ),
    {
        self.evaluate_file(&content, true)
    }

    /// Evaluates the directive lines of a template file, in order, and records
    /// what each produced.
    pub fn evaluate_template_file(&mut self, content: String) -> (r: Result<(), EngineError>)
        ensures
            file_outcome(
                r,
                *final(self),
                run_file(
                    content@,
                    false,
                    old(self).variables@,
                    results_view(old(self).template_results@),
                ),
            ),
    {
        self.evaluate_file(&content, false)
    }

    /// Rebuilds `content` line by line: a line is replaced by the next
    /// recorded result when that result's index is the line's, and kept
    /// otherwise; every line of the output ends with a newline.
    pub fn new_file_contents(&self, content: &String) -> (r: String)
        ensures
            r@ == render(content@, results_view(self.template_results@)),
    {
        let cs = chars_of(content.as_str());
        let lines = split_lines(&cs);
        let ghost ls = lines@.map_values(|l: Vec<char>| l@);
        let ghost rs = results_view(self.template_results@);
        let mut out: Vec<char> = Vec::new();
        let mut k: usize = 0;
        let n = lines.len();
        for i in 0..n
            invariant
                n == lines.len(),
                ls == lines@.map_values(|l: Vec<char>| l@),
                rs == results_view(self.template_results@),
                k <= self.template_results.len(),
                out@ + render_from(ls, rs, i as int, k as int) == render_from(ls, rs, 0, 0),
        {
            let ghost before = out@;
            let ghost k0 = k as int;
            if k < self.template_results.len() && self.template_results[k].1 == i {
                match &self.template_results[k].0 {
                    Some(s) => {
                        let t = chars_of(s.as_str());
                        push_all(&mut out, &t);
                    },
                    None => {},
                }
                k = k + 1;
            } else {
                push_all(&mut out, &lines[i]);
            }
            out.push('\n');
            assert(out@ + render_from(ls, rs, i + 1, k as int) =~= before + render_from(
                ls,
                rs,
                i as int,
                k0,
            ));
        }
        string_of(&out)
    }
}

} // verus!

