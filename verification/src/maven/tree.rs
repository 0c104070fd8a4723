//! Reading the dependency list out of the log of
//! `mvn dependency:tree -DoutputType=dot`.
use vstd::prelude::*;

use crate::text::{
    chars_of, copy_range, lemma_lines_step, lemma_newline_from, lines, lines_from, next_line, nth_piece, push_char, seg_eq, split_char_exec, split_once, split_once_exec,
    starts_with, starts_with_exec, string_of, trim, trim_exec, trim_start_matches,
    trim_start_matches_exec,
};

verus! {

#[verifier::external_type_specification]
#[verifier::external_body]
pub struct ExIoError(std::io::Error);

#[derive(Debug)]
pub enum MavenTreeError {
    Cli(std::io::Error),
    UnknownDependencyScope,
}

#[derive(PartialEq, Debug)]
pub struct Dependency {
    pub deps: Vec<Pom>,
}

#[derive(PartialEq, Debug)]
pub struct Pom {
    pub group_id: String,
    pub artivact_id: String,
    pub version: String,
    pub scope: DependencyScope,
}

/// <https://maven.apache.org/guides/introduction/introduction-to-dependency-mechanism.html#dependency-scope>
#[derive(PartialEq, Eq, Debug, Structural, Clone, Copy)]
pub enum DependencyScope {
    Compile,
    Provided,
    /// No need to be indexed
    Runtime,
    /// Only considered in test
    Test,
    System,
    Import,
}

impl Default for DependencyScope {
    fn default() -> (r: Self)
        ensures
            r == DependencyScope::Compile,
    {
        DependencyScope::Compile
    }
}

impl Default for Pom {
    fn default() -> (r: Self)
        ensures
            r.group_id@ == Seq::<char>::empty(),
            r.artivact_id@ == Seq::<char>::empty(),
            r.version@ == Seq::<char>::empty(),
            r.scope == DependencyScope::Compile,
    {
        Pom {
            group_id: String::new(),
            artivact_id: String::new(),
            version: String::new(),
            scope: DependencyScope::Compile,
        }
    }
}

pub struct PomView {
    pub group_id: Seq<char>,
    pub artivact_id: Seq<char>,
    pub version: Seq<char>,
    pub scope: DependencyScope,
}

impl View for Pom {
    type V = PomView;

    open spec fn view(&self) -> PomView {
        PomView {
            group_id: self.group_id@,
            artivact_id: self.artivact_id@,
            version: self.version@,
            scope: self.scope,
        }
    }
}

pub open spec fn pom_views(ps: Seq<Pom>) -> Seq<PomView> {
    ps.map_values(|p: Pom| p@)
}

/// The scope that a scope name in the tree stands for.
pub open spec fn scope_of(s: Seq<char>) -> Option<DependencyScope> {
    if s == "compile"@ {
        Some(DependencyScope::Compile)
    } else if s == "provided"@ {
        Some(DependencyScope::Provided)
    } else if s == "runtime"@ {
        Some(DependencyScope::Runtime)
    } else if s == "test"@ {
        Some(DependencyScope::Test)
    } else if s == "system"@ {
        Some(DependencyScope::System)
    } else if s == "import"@ {
        Some(DependencyScope::Import)
    } else {
        None
    }
}

impl DependencyScope {
    /// Reads a scope name; any other name is an unknown scope.
    pub fn from_str(s: &str) -> (r: Result<DependencyScope, MavenTreeError>)
        ensures
            match scope_of(s@) {
                Some(sc) => r matches Ok(x) && x == sc,
                None => r matches Err(MavenTreeError::UnknownDependencyScope),
            },
    {
        let v = chars_of(s);
        let n = v.len();
        assert(v@.subrange(0, n as int) =~= v@);
        if seg_eq(&v, 0, n, "compile") {
            Ok(DependencyScope::Compile)
        } else if seg_eq(&v, 0, n, "provided") {
            Ok(DependencyScope::Provided)
        } else if seg_eq(&v, 0, n, "runtime") {
            Ok(DependencyScope::Runtime)
        } else if seg_eq(&v, 0, n, "test") {
            Ok(DependencyScope::Test)
        } else if seg_eq(&v, 0, n, "system") {
            Ok(DependencyScope::System)
        } else if seg_eq(&v, 0, n, "import") {
            Ok(DependencyScope::Import)
        } else {
            Err(MavenTreeError::UnknownDependencyScope)
        }
    }
}

/// The lines of the log from the one starting with `[INFO] digraph` up to
/// the one starting with `[INFO]  }`, each followed by a newline; reading
/// stops at the first `[INFO]  }` line, also when no graph started before it.
pub open spec fn cut_lines(ls: Seq<Seq<char>>, capture: bool) -> Seq<char>
    decreases ls.len(),
{
    if ls.len() == 0 {
        seq![]
    } else {
        let l = ls[0];
        let cap = capture || starts_with(l, "[INFO] digraph"@);
        let out = if cap {
            l.push('\n')
        } else {
            seq![]
        };
        if starts_with(l, "[INFO]  }"@) {
            out
        } else {
            out + cut_lines(ls.drop_first(), cap)
        }
    }
}

pub open spec fn spec_cut_output(inp: Seq<char>) -> Seq<char> {
    cut_lines(lines(inp), false)
}

/// What one line of the graph gives.
pub enum LineOutcome {
    Skip,
    Dep(PomView),
    UnknownScope,
}

/// A line `[INFO] "x" -> "group:artifact:type:version:scope"` gives a
/// dependency; lines without `-> "` or without a closing quote after the
/// scope field are skipped; a scope name that is not known is an error.
pub open spec fn parse_tree_line(line: Seq<char>) -> LineOutcome {
    let t = trim(trim_start_matches(line, "[INFO]"@));
    match split_once(t, "-> \""@) {
        None => LineOutcome::Skip,
        Some((_, rest)) => {
            let scope_field = nth_piece(rest, ':', 4);
            match split_once(scope_field, "\""@) {
                None => LineOutcome::Skip,
                Some((scope, _)) => match scope_of(scope) {
                    None => LineOutcome::UnknownScope,
                    Some(sc) => LineOutcome::Dep(
                        PomView {
                            group_id: nth_piece(rest, ':', 0),
                            artivact_id: nth_piece(rest, ':', 1),
                            version: nth_piece(rest, ':', 3),
                            scope: sc,
                        },
                    ),
                },
            }
        },
    }
}

/// The dependencies of all lines, or `None` at the first unknown scope.
pub open spec fn parse_tree_lines(ls: Seq<Seq<char>>) -> Option<Seq<PomView>>
    decreases ls.len(),
{
    if ls.len() == 0 {
        Some(seq![])
    } else {
        match parse_tree_line(ls[0]) {
            LineOutcome::UnknownScope => None,
            LineOutcome::Skip => parse_tree_lines(ls.drop_first()),
            LineOutcome::Dep(p) => match parse_tree_lines(ls.drop_first()) {
                Some(rest) => Some(seq![p] + rest),
                None => None,
            },
        }
    }
}

/// Keeps the lines of the dependency graph from the `mvn dependency:tree` log.
pub fn cut_output(inp: String) -> (out: String)
    ensures
        out@ == spec_cut_output(inp@),
{
    let s = chars_of(inp.as_str());
    let digraph = chars_of("[INFO] digraph");
    let close = chars_of("[INFO]  }");
    let n = s.len();
    let mut out = String::new();
    let mut capture = false;
    let mut i: usize = 0;
    assert(out@ + cut_lines(lines_from(s@, 0), false) =~= spec_cut_output(inp@));
    while i < n
        invariant
            n == s@.len(),
            s@ == inp@,
            digraph@ == "[INFO] digraph"@,
            close@ == "[INFO]  }"@,
            i <= n,
            out@ + cut_lines(lines_from(s@, i as int), capture) == spec_cut_output(inp@),
        decreases n - i,
    {
        let (content_end, next) = next_line(&s, i);
        proof {
            lemma_lines_step(s@, i as int, content_end as int, next as int);
            lemma_newline_from(s@, i as int);
        }
        let line = copy_range(&s, i, content_end);
        let ghost ls = lines_from(s@, i as int);
        assert(ls[0] == line@);
        assert(ls.drop_first() =~= lines_from(s@, next as int));
        let ghost old_out = out@;
        if starts_with_exec(&line, &digraph) {
            capture = true;
        }
        if capture {
            let piece = string_of(&line, 0, line.len());
            assert(line@.subrange(0, line@.len() as int) =~= line@);
            out.append(piece.as_str());
            push_char(&mut out, '\n');
            assert(out@ =~= old_out + line@.push('\n'));
        } else {
            assert(out@ =~= old_out + Seq::<char>::empty());
        }
        if starts_with_exec(&line, &close) {
            return out;
        }
        i = next;
    }
    assert(lines_from(s@, i as int) =~= Seq::<Seq<char>>::empty());
    assert(out@ + Seq::<char>::empty() =~= out@);
    out
}

/// Reads one line of the graph.
fn parse_line(line: &Vec<char>, info: &Vec<char>, arrow: &Vec<char>, quote: &Vec<char>) -> (r: Result<Option<Pom>, MavenTreeError>)
    requires
        info@ == "[INFO]"@,
        arrow@ == "-> \""@,
        quote@ == "\""@,
    ensures
        match parse_tree_line(line@) {
            LineOutcome::Skip => r matches Ok(None),
            LineOutcome::Dep(p) => r matches Ok(Some(x)) && x@ == p,
            LineOutcome::UnknownScope => r matches Err(MavenTreeError::UnknownDependencyScope),
        },
{
    let stripped = trim_start_matches_exec(line, info);
    let t = trim_exec(&stripped);
    let rest = match split_once_exec(&t, arrow) {
        None => {
            return Ok(None);
        },
        Some((_, rest)) => rest,
    };
    let pieces = split_char_exec(&rest, ':');
    let ghost pv = pieces@.map_values(|v: Vec<char>| v@);
    let empty: Vec<char> = Vec::new();
    let group = if pieces.len() > 0 {
        &pieces[0]
    } else {
        &empty
    };
    let artifact = if pieces.len() > 1 {
        &pieces[1]
    } else {
        &empty
    };
    let version = if pieces.len() > 3 {
        &pieces[3]
    } else {
        &empty
    };
    let scope_field = if pieces.len() > 4 {
        &pieces[4]
    } else {
        &empty
    };
    assert(group@ == nth_piece(rest@, ':', 0));
    assert(artifact@ == nth_piece(rest@, ':', 1));
    assert(version@ == nth_piece(rest@, ':', 3));
    assert(scope_field@ == nth_piece(rest@, ':', 4));
    let scope_name = match split_once_exec(scope_field, quote) {
        None => {
            return Ok(None);
        },
        Some((scope, _)) => scope,
    };
    let scope_string = string_of(&scope_name, 0, scope_name.len());
    assert(scope_name@.subrange(0, scope_name@.len() as int) =~= scope_name@);
    let scope = match DependencyScope::from_str(scope_string.as_str()) {
        Ok(sc) => sc,
        Err(e) => {
            return Err(e);
        },
    };
    assert(group@.subrange(0, group@.len() as int) =~= group@);
    assert(artifact@.subrange(0, artifact@.len() as int) =~= artifact@);
    assert(version@.subrange(0, version@.len() as int) =~= version@);
    Ok(
        Some(
            Pom {
                group_id: string_of(group, 0, group.len()),
                artivact_id: string_of(artifact, 0, artifact.len()),
                version: string_of(version, 0, version.len()),
                scope,
            },
        ),
    )
}

/// Reads the dependencies from the graph lines that `cut_output` kept.
pub fn parser(cut: String) -> (r: Result<Dependency, MavenTreeError>)
    ensures
        match parse_tree_lines(lines(cut@)) {
            Some(ps) => r matches Ok(d) && pom_views(d.deps@) == ps,
            None => r matches Err(MavenTreeError::UnknownDependencyScope),
        },
{
    let s = chars_of(cut.as_str());
    let info = chars_of("[INFO]");
    let arrow = chars_of("-> \"");
    let quote = chars_of("\"");
    let n = s.len();
    let mut out: Vec<Pom> = Vec::new();
    let mut i: usize = 0;
    assert(pom_views(out@) =~= Seq::<PomView>::empty());
    while i < n
        invariant
            n == s@.len(),
            s@ == cut@,
            info@ == "[INFO]"@,
            arrow@ == "-> \""@,
            quote@ == "\""@,
            i <= n,
            match parse_tree_lines(lines_from(s@, i as int)) {
                Some(rest) => parse_tree_lines(lines(cut@)) == Some(pom_views(out@) + rest),
                None => parse_tree_lines(lines(cut@)) is None,
            },
        decreases n - i,
    {
        let (content_end, next) = next_line(&s, i);
        proof {
            lemma_lines_step(s@, i as int, content_end as int, next as int);
            lemma_newline_from(s@, i as int);
        }
        let line = copy_range(&s, i, content_end);
        let ghost ls = lines_from(s@, i as int);
        assert(ls[0] == line@);
        assert(ls.drop_first() =~= lines_from(s@, next as int));
        let ghost old_out = pom_views(out@);
        match parse_line(&line, &info, &arrow, &quote) {
            Err(e) => {
                return Err(e);
            },
            Ok(None) => {},
            Ok(Some(p)) => {
                out.push(p);
                proof {
                    assert(pom_views(out@) =~= old_out.push(p@));
                    if let Some(rest) = parse_tree_lines(lines_from(s@, next as int)) {
                        assert(old_out + (seq![p@] + rest) =~= pom_views(out@) + rest);
                    }
                }
            },
        }
        i = next;
    }
    assert(lines_from(s@, i as int) =~= Seq::<Seq<char>>::empty());
    assert(pom_views(out@) + Seq::<PomView>::empty() =~= pom_views(out@));
    Ok(Dependency { deps: out })
}

/// The dependency list from the whole log of `mvn dependency:tree`.
pub fn load(log: String) -> (r: Result<Dependency, MavenTreeError>)
    ensures
        match parse_tree_lines(lines(spec_cut_output(log@))) {
            Some(ps) => r matches Ok(d) && pom_views(d.deps@) == ps,
            None => r matches Err(MavenTreeError::UnknownDependencyScope),
        },
{
    let cut = cut_output(log);
    parser(cut)
}

proof fn lemma_starts_with_append(a: Seq<char>, b: Seq<char>, p: Seq<char>)
    requires
        starts_with(a, p),
    ensures
        starts_with(a + b, p),
{
    assert((a + b).subrange(0, p.len() as int) =~= a.subrange(0, p.len() as int));
}

proof fn lemma_cut_lines_start(ls: Seq<Seq<char>>)
    ensures
        cut_lines(ls, false).len() == 0 || starts_with(cut_lines(ls, false), "[INFO] digraph"@),
    decreases ls.len(),
{
    if ls.len() > 0 {
        let l = ls[0];
        if starts_with(l, "[INFO] digraph"@) {
            lemma_starts_with_append(l, seq!['\n'], "[INFO] digraph"@);
            assert(l.push('\n') =~= l + seq!['\n']);
            if !starts_with(l, "[INFO]  }"@) {
                lemma_starts_with_append(l.push('\n'), cut_lines(ls.drop_first(), true), "[INFO] digraph"@);
            }
        } else if !starts_with(l, "[INFO]  }"@) {
            lemma_cut_lines_start(ls.drop_first());
            assert(cut_lines(ls, false) =~= cut_lines(ls.drop_first(), false));
        }
    }
}

/// What `cut_output` keeps of a log begins with the `[INFO] digraph` line:
/// every line before the graph is dropped.
pub proof fn lemma_cut_output_starts_at_graph(inp: Seq<char>)
    ensures
        spec_cut_output(inp).len() == 0 || starts_with(spec_cut_output(inp), "[INFO] digraph"@),
{
    lemma_cut_lines_start(lines(inp));
}

/// The index of the first line that starts with `p`, or the number of
/// lines.
pub open spec fn first_line(ls: Seq<Seq<char>>, p: Seq<char>) -> int
    decreases ls.len(),
{
    if ls.len() == 0 {
        0
    } else if starts_with(ls[0], p) {
        0
    } else {
        1 + first_line(ls.drop_first(), p)
    }
}

/// Lines, each followed by a line break.
pub open spec fn joined_lines(ls: Seq<Seq<char>>) -> Seq<char>
    decreases ls.len(),
{
    if ls.len() == 0 {
        seq![]
    } else {
        ls[0].push('\n') + joined_lines(ls.drop_first())
    }
}

/// How many lines reach through the first `[INFO]  }` line, or all.
pub open spec fn through_close(ls: Seq<Seq<char>>) -> int {
    let e = first_line(ls, "[INFO]  }"@);
    if e < ls.len() {
        e + 1
    } else {
        ls.len() as int
    }
}

proof fn lemma_first_line_bound(ls: Seq<Seq<char>>, p: Seq<char>)
    ensures
        0 <= first_line(ls, p) <= ls.len(),
    decreases ls.len(),
{
    if ls.len() > 0 && !starts_with(ls[0], p) {
        lemma_first_line_bound(ls.drop_first(), p);
    }
}

proof fn lemma_not_both(l: Seq<char>)
    ensures
        !(starts_with(l, "[INFO] digraph"@) && starts_with(l, "[INFO]  }"@)),
{
    reveal_strlit("[INFO] digraph");
    reveal_strlit("[INFO]  }");
    if starts_with(l, "[INFO] digraph"@) && starts_with(l, "[INFO]  }"@) {
        assert(l[7] == "[INFO] digraph"@[7]);
        assert(l[7] == "[INFO]  }"@[7]);
    }
}

/// Once capturing, the lines are kept through the first `[INFO]  }` line.
proof fn lemma_cut_capturing(ls: Seq<Seq<char>>)
    ensures
        cut_lines(ls, true) == joined_lines(ls.take(through_close(ls))),
    decreases ls.len(),
{
    lemma_first_line_bound(ls, "[INFO]  }"@);
    if ls.len() > 0 {
        let rest = ls.drop_first();
        lemma_first_line_bound(rest, "[INFO]  }"@);
        if starts_with(ls[0], "[INFO]  }"@) {
            let t = ls.take(1);
            assert(t.drop_first() =~= Seq::<Seq<char>>::empty());
            assert(t[0] == ls[0]);
            assert(joined_lines(t.drop_first()) =~= Seq::<char>::empty());
            assert(joined_lines(t) =~= ls[0].push('\n'));
        } else {
            lemma_cut_capturing(rest);
            let t = ls.take(through_close(ls));
            assert(t[0] == ls[0]);
            assert(t.drop_first() =~= rest.take(through_close(rest)));
        }
    }
}

/// What `cut_output` keeps, stated over the lines of the log: nothing where
/// no line starts with `[INFO] digraph` or a line starting with `[INFO]  }`
/// comes first; else the lines from the first `[INFO] digraph` line through
/// the next `[INFO]  }` line (or the last line), each followed by a line
/// break.
pub proof fn lemma_cut_lines(ls: Seq<Seq<char>>)
    ensures
        ({
            let g = first_line(ls, "[INFO] digraph"@);
            let c = first_line(ls, "[INFO]  }"@);
            cut_lines(ls, false) == if g >= ls.len() || c < g {
                Seq::<char>::empty()
            } else {
                joined_lines(ls.subrange(g, g + through_close(ls.subrange(g, ls.len() as int))))
            }
        }),
    decreases ls.len(),
{
    lemma_first_line_bound(ls, "[INFO] digraph"@);
    lemma_first_line_bound(ls, "[INFO]  }"@);
    if ls.len() > 0 {
        let l = ls[0];
        let rest = ls.drop_first();
        lemma_not_both(l);
        lemma_first_line_bound(rest, "[INFO] digraph"@);
        lemma_first_line_bound(rest, "[INFO]  }"@);
        if starts_with(l, "[INFO] digraph"@) {
            assert(cut_lines(ls, false) == cut_lines(ls, true));
            lemma_cut_capturing(ls);
            assert(ls.subrange(0, ls.len() as int) =~= ls);
            lemma_first_line_bound(ls, "[INFO]  }"@);
            assert(ls.subrange(0, through_close(ls)) =~= ls.take(through_close(ls)));
        } else if !starts_with(l, "[INFO]  }"@) {
            lemma_cut_lines(rest);
            lemma_first_line_bound(rest, "[INFO] digraph"@);
            let g = first_line(ls, "[INFO] digraph"@);
            assert(g == 1 + first_line(rest, "[INFO] digraph"@));
            assert(first_line(ls, "[INFO]  }"@) == 1 + first_line(rest, "[INFO]  }"@));
            if g < ls.len() {
                assert(ls.subrange(g, ls.len() as int) =~= rest.subrange(g - 1, rest.len() as int));
                let k = through_close(ls.subrange(g, ls.len() as int));
                lemma_first_line_bound(ls.subrange(g, ls.len() as int), "[INFO]  }"@);
                assert(ls.subrange(g, g + k) =~= rest.subrange(g - 1, g - 1 + k));
            }
        }
    }
}

/// What `cut_output` keeps of a log (see `lemma_cut_lines`), over the log's
/// lines.
pub proof fn lemma_cut_output(inp: Seq<char>)
    ensures
        ({
            let ls = lines(inp);
            let g = first_line(ls, "[INFO] digraph"@);
            let c = first_line(ls, "[INFO]  }"@);
            spec_cut_output(inp) == if g >= ls.len() || c < g {
                Seq::<char>::empty()
            } else {
                joined_lines(ls.subrange(g, g + through_close(ls.subrange(g, ls.len() as int))))
            }
        }),
{
    lemma_cut_lines(lines(inp));
}

/// The dependencies of the lines that give one, in order.
pub open spec fn dependency_lines(ls: Seq<Seq<char>>) -> Seq<PomView>
    decreases ls.len(),
{
    if ls.len() == 0 {
        seq![]
    } else {
        match parse_tree_line(ls[0]) {
            LineOutcome::Dep(p) => seq![p] + dependency_lines(ls.drop_first()),
            _ => dependency_lines(ls.drop_first()),
        }
    }
}

/// Reading the graph lines fails exactly when some line names a scope that
/// is none of Maven's; otherwise it gives one dependency for each line
/// that has one, in order.
pub proof fn lemma_tree_lines(ls: Seq<Seq<char>>)
    ensures
        parse_tree_lines(ls) == if exists|i: int| 0 <= i < ls.len() && #[trigger] parse_tree_line(ls[i]) is UnknownScope {
            None
        } else {
            Some(dependency_lines(ls))
        },
    decreases ls.len(),
{
    if ls.len() > 0 {
        let rest = ls.drop_first();
        lemma_tree_lines(rest);
        if exists|i: int| 0 <= i < rest.len() && #[trigger] parse_tree_line(rest[i]) is UnknownScope {
            let i = choose|i: int| 0 <= i < rest.len() && #[trigger] parse_tree_line(rest[i]) is UnknownScope;
            assert(ls[i + 1] == rest[i]);
        }
        if exists|i: int| 0 <= i < ls.len() && #[trigger] parse_tree_line(ls[i]) is UnknownScope {
            let i = choose|i: int| 0 <= i < ls.len() && #[trigger] parse_tree_line(ls[i]) is UnknownScope;
            if i > 0 {
                assert(rest[i - 1] == ls[i]);
            }
        }
    }
}

/// The name of each scope in Maven's documentation of dependency scopes.
pub open spec fn scope_name(sc: DependencyScope) -> Seq<char> {
    match sc {
        DependencyScope::Compile => "compile"@,
        DependencyScope::Provided => "provided"@,
        DependencyScope::Runtime => "runtime"@,
        DependencyScope::Test => "test"@,
        DependencyScope::System => "system"@,
        DependencyScope::Import => "import"@,
    }
}

/// A scope field names a scope exactly when it is that scope's name; every
/// other text names none.
pub proof fn lemma_scope_names(s: Seq<char>, sc: DependencyScope)
    ensures
        scope_of(s) == Some(sc) <==> s == scope_name(sc),
{
    reveal_strlit("compile");
    assert("compile"@.len() == 7);
    reveal_strlit("provided");
    assert("provided"@.len() == 8);
    reveal_strlit("runtime");
    assert("runtime"@.len() == 7);
    reveal_strlit("test");
    assert("test"@.len() == 4);
    reveal_strlit("system");
    assert("system"@.len() == 6);
    reveal_strlit("import");
    assert("import"@.len() == 6);
    assert("compile"@[0] != "runtime"@[0]);
    assert("system"@[0] != "import"@[0]);
}

} // verus!
