//! Discovery of package dependencies in TeX source text: declaration
//! commands are matched line by line and yield typed dependency records.
use vstd::prelude::*;
use vstd::string::StrSliceExecFns;

use crate::error::TpmgrError;
use crate::text::{
    contains_str, find_char_from, index_of_first, lemma_index_of_first, match_at,
    sorted_insert_unique, spec_lines, spec_trim, split_lines, str_eq, strictly_sorted, substr,
    trim, views_of,
};

verus! {

/// The kind of declaration a dependency was found in.
#[derive(Debug, Clone, Copy, PartialEq, Eq, Structural)]
pub enum DependencyType {
    UsePackage,
    RequirePackage,
    DocumentClass,
    LoadClass,
    Input,
    Include,
    Bibliography,
    BibliographyStyle,
}

/// Whether dependencies of this kind name an installable package rather
/// than a file of the project.
pub open spec fn is_installable_kind(k: DependencyType) -> bool {
    k == DependencyType::UsePackage || k == DependencyType::RequirePackage || k
        == DependencyType::DocumentClass || k == DependencyType::LoadClass
}

/// One dependency occurrence found in source text.
#[derive(Debug, Clone)]
pub struct TeXDependency {
    pub package_name: String,
    pub dependency_type: DependencyType,
    pub line_number: usize,
    pub context: String,
}

/// Mathematical model of a dependency record.
pub struct DepModel {
    pub name: Seq<char>,
    pub kind: DependencyType,
    pub line: int,
    pub context: Seq<char>,
}

impl View for TeXDependency {
    type V = DepModel;

    open spec fn view(&self) -> DepModel {
        DepModel {
            name: self.package_name@,
            kind: self.dependency_type,
            line: self.line_number as int,
            context: self.context@,
        }
    }
}

/// The models of a sequence of dependency records.
pub open spec fn dep_views(v: Seq<TeXDependency>) -> Seq<DepModel> {
    v.map_values(|d: TeXDependency| d@)
}

/// Position where the opening brace of a command occurrence starting at `p`
/// must stand: right after the command word, or right after one bracketed
/// option group when options are tolerated; `-1` when the command does not
/// occur at `p` or its option group is unclosed.
pub open spec fn cmd_brace_start(l: Seq<char>, cmd: Seq<char>, opts: bool, p: int) -> int {
    if !crate::text::has_at(l, cmd, p) {
        -1
    } else {
        let ac = p + cmd.len() as int;
        if opts && ac < l.len() && l[ac] == '[' {
            let rb = index_of_first(l, ']', ac + 1);
            if rb < l.len() {
                rb + 1
            } else {
                -1
            }
        } else {
            ac
        }
    }
}

/// Position of the closing brace of a command occurrence starting at `p`,
/// or `-1` when the command does not fully match there. A match needs an
/// opening brace, at least one character of content, and a closing brace.
pub open spec fn cmd_match_close(l: Seq<char>, cmd: Seq<char>, opts: bool, p: int) -> int {
    let bs = cmd_brace_start(l, cmd, opts, p);
    if bs < 0 || bs >= l.len() || l[bs] != '{' {
        -1
    } else {
        let close = index_of_first(l, '}', bs + 1);
        if close >= l.len() {
            -1
        } else if close == bs + 1 {
            -1
        } else {
            close
        }
    }
}

/// The brace-delimited text captured by a command occurrence at `p`.
pub open spec fn cmd_match_cap(l: Seq<char>, cmd: Seq<char>, opts: bool, p: int) -> Seq<char> {
    l.subrange(cmd_brace_start(l, cmd, opts, p) + 1, cmd_match_close(l, cmd, opts, p))
}

/// The captures of all occurrences of a command in `l` at or after `p`,
/// leftmost first and non-overlapping.
pub open spec fn scan_caps(l: Seq<char>, cmd: Seq<char>, opts: bool, p: int) -> Seq<Seq<char>>
    decreases l.len() - p,
{
    if p < 0 || p >= l.len() {
        Seq::empty()
    } else {
        let close = cmd_match_close(l, cmd, opts, p);
        if close >= 0 {
            let end = close + 1;
            if p < end <= l.len() {
                seq![cmd_match_cap(l, cmd, opts, p)] + scan_caps(l, cmd, opts, end)
            } else {
                Seq::empty()
            }
        } else {
            scan_caps(l, cmd, opts, p + 1)
        }
    }
}

/// Try to match one command occurrence at position `p`; on success return
/// the captured text and the position right after the closing brace.
fn cmd_match_step(l: &str, cmd: &str, opts: bool, p: usize) -> (r: Option<(String, usize)>)
    ensures
        match r {
            Some(pair) => {
                &&& cmd_match_close(l@, cmd@, opts, p as int) >= 0
                &&& pair.0@ == cmd_match_cap(l@, cmd@, opts, p as int)
                &&& pair.1 == cmd_match_close(l@, cmd@, opts, p as int) + 1
                &&& p < pair.1 <= l@.len()
            },
            None => cmd_match_close(l@, cmd@, opts, p as int) < 0,
        },
{
    let ll: usize = l.unicode_len();
    if !match_at(l, cmd, p) {
        return None;
    }
    let cl: usize = cmd.unicode_len();
    let ac: usize = p + cl;
    let mut bs: usize = ac;
    if opts && ac < ll && l.get_char(ac) == '[' {
        match find_char_from(l, ']', ac + 1) {
            Some(rb) => {
                bs = rb + 1;
            },
            None => {
                return None;
            },
        }
    }
    if bs >= ll || l.get_char(bs) != '{' {
        return None;
    }
    match find_char_from(l, '}', bs + 1) {
        Some(close) => {
            if close == bs + 1 {
                None
            } else {
                let cap = substr(l, bs + 1, close);
                Some((cap, close + 1))
            }
        },
        None => None,
    }
}

/// Collect the captures of all occurrences of a command in `l`.
pub(crate) fn scan_cmd_caps(l: &str, cmd: &str, opts: bool) -> (r: Vec<String>)
    ensures
        views_of(r@) == scan_caps(l@, cmd@, opts, 0),
{
    let ll: usize = l.unicode_len();
    let mut out: Vec<String> = Vec::new();
    let mut p: usize = 0;
    proof {
        assert(views_of(out@) =~= Seq::<Seq<char>>::empty());
    }
    while p < ll
        invariant
            p <= ll,
            ll == l@.len(),
            scan_caps(l@, cmd@, opts, 0) == views_of(out@) + scan_caps(l@, cmd@, opts, p as int),
        decreases ll - p,
    {
        match cmd_match_step(l, cmd, opts, p) {
            Some(pair) => {
                proof {
                    assert(views_of(out@.push(pair.0)) =~= views_of(out@).push(pair.0@));
                    assert(views_of(out@) + scan_caps(l@, cmd@, opts, p as int) =~= views_of(
                        out@.push(pair.0),
                    ) + scan_caps(l@, cmd@, opts, pair.1 as int));
                }
                let (cap, end) = pair;
                out.push(cap);
                p = end;
            },
            None => {
                p += 1;
            },
        }
    }
    proof {
        assert(scan_caps(l@, cmd@, opts, p as int) =~= Seq::<Seq<char>>::empty());
        assert(views_of(out@) =~= views_of(out@) + scan_caps(l@, cmd@, opts, p as int));
    }
    out
}

/// The pieces of `cap` between commas, in order, commas removed.
pub open spec fn split_commas(cap: Seq<char>) -> Seq<Seq<char>>
    decreases cap.len(),
{
    let i = index_of_first(cap, ',', 0);
    if 0 <= i < cap.len() {
        seq![cap.subrange(0, i)] + split_commas(cap.subrange(i + 1, cap.len() as int))
    } else {
        seq![cap]
    }
}

/// Each piece trimmed, empty pieces dropped.
pub open spec fn clean_pieces(parts: Seq<Seq<char>>) -> Seq<Seq<char>>
    decreases parts.len(),
{
    if parts.len() == 0 {
        Seq::empty()
    } else {
        let t = spec_trim(parts[0]);
        (if t.len() > 0 {
            seq![t]
        } else {
            Seq::empty()
        }) + clean_pieces(parts.drop_first())
    }
}

/// The package names in a comma-separated capture: split, trimmed, with
/// empty entries discarded.
pub open spec fn clean_names(cap: Seq<char>) -> Seq<Seq<char>> {
    clean_pieces(split_commas(cap))
}

/// All names of a sequence of comma-separated captures.
pub open spec fn multi_names(caps: Seq<Seq<char>>) -> Seq<Seq<char>>
    decreases caps.len(),
{
    if caps.len() == 0 {
        Seq::empty()
    } else {
        clean_names(caps[0]) + multi_names(caps.drop_first())
    }
}

/// Each capture taken whole as one name, trimmed.
pub open spec fn single_names(caps: Seq<Seq<char>>) -> Seq<Seq<char>>
    decreases caps.len(),
{
    if caps.len() == 0 {
        Seq::empty()
    } else {
        seq![spec_trim(caps[0])] + single_names(caps.drop_first())
    }
}

/// Dependency records for a list of names found on one line.
pub open spec fn names_to_deps(
    names: Seq<Seq<char>>,
    kind: DependencyType,
    line: int,
    ctx: Seq<char>,
) -> Seq<DepModel>
    decreases names.len(),
{
    if names.len() == 0 {
        Seq::empty()
    } else {
        seq![DepModel { name: names[0], kind: kind, line: line, context: ctx }] + names_to_deps(
            names.drop_first(),
            kind,
            line,
            ctx,
        )
    }
}

/// The dependencies one command kind contributes for one line.
pub open spec fn deps_for_kind(
    l: Seq<char>,
    n: int,
    cmd: Seq<char>,
    opts: bool,
    multi: bool,
    kind: DependencyType,
) -> Seq<DepModel> {
    let caps = scan_caps(l, cmd, opts, 0);
    names_to_deps(
        if multi {
            multi_names(caps)
        } else {
            single_names(caps)
        },
        kind,
        n,
        spec_trim(l),
    )
}

/// All dependencies of one (comment-stripped) line, in the order the
/// extractors run.
pub open spec fn line_deps(l: Seq<char>, n: int) -> Seq<DepModel> {
    deps_for_kind(l, n, "\\usepackage"@, true, true, DependencyType::UsePackage) + deps_for_kind(
        l,
        n,
        "\\RequirePackage"@,
        true,
        true,
        DependencyType::RequirePackage,
    ) + deps_for_kind(l, n, "\\documentclass"@, true, false, DependencyType::DocumentClass)
        + deps_for_kind(l, n, "\\LoadClass"@, true, false, DependencyType::LoadClass)
        + deps_for_kind(l, n, "\\input"@, false, false, DependencyType::Input) + deps_for_kind(
        l,
        n,
        "\\include"@,
        false,
        false,
        DependencyType::Include,
    ) + deps_for_kind(l, n, "\\bibliography"@, false, true, DependencyType::Bibliography)
        + deps_for_kind(
        l,
        n,
        "\\bibliographystyle"@,
        false,
        false,
        DependencyType::BibliographyStyle,
    )
}

/// Index of the first `%` not preceded by a backslash, at or after `from`;
/// `l.len()` when there is none.
pub open spec fn first_unescaped_percent(l: Seq<char>, from: int) -> int
    decreases l.len() - from,
{
    if from < 0 || from >= l.len() {
        l.len() as int
    } else if l[from] == '%' && (from == 0 || l[from - 1] != '\\') {
        from
    } else {
        first_unescaped_percent(l, from + 1)
    }
}

proof fn lemma_first_unescaped_percent(l: Seq<char>, from: int)
    requires
        0 <= from <= l.len(),
    ensures
        from <= first_unescaped_percent(l, from) <= l.len(),
        forall|k: int|
            from <= k < first_unescaped_percent(l, from) ==> !(#[trigger] l[k] == '%' && (k == 0
                || l[k - 1] != '\\')),
        first_unescaped_percent(l, from) < l.len() ==> (l[first_unescaped_percent(l, from)] == '%'
            && (first_unescaped_percent(l, from) == 0 || l[first_unescaped_percent(l, from) - 1]
            != '\\')),
    decreases l.len() - from,
{
    if from < l.len() && !(l[from] == '%' && (from == 0 || l[from - 1] != '\\')) {
        lemma_first_unescaped_percent(l, from + 1);
    }
}

/// The part of a line that is matched: the text before its first unescaped
/// comment sign, the whole line when there is none, nothing when only
/// whitespace is left.
pub open spec fn effective_line(l: Seq<char>) -> Option<Seq<char>> {
    let p = first_unescaped_percent(l, 0);
    if p >= l.len() {
        Some(l)
    } else if spec_trim(l.subrange(0, p)).len() == 0 {
        None
    } else {
        Some(l.subrange(0, p))
    }
}

/// The comment-stripped text of a line, or nothing when the line is skipped.
fn effective_line_exec(l: &str) -> (r: Option<String>)
    ensures
        match r {
            Some(el) => effective_line(l@) == Some(el@),
            None => effective_line(l@) is None,
        },
{
    let ll: usize = l.unicode_len();
    let mut i: usize = 0;
    while i < ll
        invariant
            i <= ll,
            ll == l@.len(),
            forall|k: int|
                0 <= k < i ==> !(#[trigger] l@[k] == '%' && (k == 0 || l@[k - 1] != '\\')),
        decreases ll - i,
    {
        if l.get_char(i) == '%' && (i == 0 || l.get_char(i - 1) != '\\') {
            proof {
                lemma_first_unescaped_percent(l@, 0);
                let p = first_unescaped_percent(l@, 0);
                if p < i as int {
                    assert(!(l@[p] == '%' && (p == 0 || l@[p - 1] != '\\')));
                }
                assert(p == i as int);
            }
            let before = substr(l, 0, i);
            let t = trim(before.as_str());
            if t.unicode_len() == 0 {
                return None;
            }
            return Some(before);
        }
        i += 1;
    }
    proof {
        lemma_first_unescaped_percent(l@, 0);
        let p = first_unescaped_percent(l@, 0);
        if p < l@.len() {
            assert(!(l@[p] == '%' && (p == 0 || l@[p - 1] != '\\')));
        }
    }
    Some(crate::text::str_copy(l))
}

/// The dependencies of all lines, numbering the first line `start_no`.
pub open spec fn lines_deps(lines: Seq<Seq<char>>, start_no: int) -> Seq<DepModel>
    decreases lines.len(),
{
    if lines.len() == 0 {
        Seq::empty()
    } else {
        (match effective_line(lines[0]) {
            Some(el) => line_deps(el, start_no),
            None => Seq::empty(),
        }) + lines_deps(lines.drop_first(), start_no + 1)
    }
}

/// All dependencies of a piece of TeX source text, lines numbered from 1.
pub open spec fn content_deps(text: Seq<char>) -> Seq<DepModel> {
    lines_deps(spec_lines(text), 1)
}

/// The pieces of a comma-separated capture.
fn split_list(cap: &str) -> (r: Vec<String>)
    ensures
        views_of(r@) == split_commas(cap@),
{
    let cl: usize = cap.unicode_len();
    let mut out: Vec<String> = Vec::new();
    let mut pos: usize = 0;
    proof {
        assert(cap@.skip(0) =~= cap@);
        assert(views_of(out@) =~= Seq::<Seq<char>>::empty());
    }
    let mut finished: bool = false;
    while !finished
        invariant
            pos <= cl,
            cl == cap@.len(),
            !finished ==> split_commas(cap@) == views_of(out@) + split_commas(
                cap@.skip(pos as int),
            ),
            finished ==> views_of(out@) == split_commas(cap@),
        decreases cl - pos + (if finished { 0int } else { 1int }),
    {
        let ghost suffix = cap@.skip(pos as int);
        proof {
            lemma_index_of_first(suffix, ',', 0);
            assert(forall|k: int| 0 <= k < suffix.len() ==> suffix[k] == cap@[pos + k]);
        }
        match find_char_from(cap, ',', pos) {
            Some(i) => {
                proof {
                    lemma_index_of_first(cap@, ',', pos as int);
                    let j = index_of_first(suffix, ',', 0);
                    if j < i - pos {
                        assert(cap@[pos + j] == ',');
                    }
                    if j > i - pos {
                        assert(suffix[i - pos] == ',');
                    }
                    assert(j == i - pos);
                }
                let piece = substr(cap, pos, i);
                proof {
                    let j = index_of_first(suffix, ',', 0);
                    assert(suffix.subrange(0, j) =~= cap@.subrange(pos as int, i as int));
                    assert(suffix.subrange(j + 1, suffix.len() as int) =~= cap@.skip(i + 1));
                    assert(split_commas(suffix) == seq![piece@] + split_commas(cap@.skip(i + 1)));
                    assert(views_of(out@.push(piece)) =~= views_of(out@).push(piece@));
                    assert(views_of(out@) + split_commas(suffix) =~= views_of(out@.push(piece))
                        + split_commas(cap@.skip(i + 1)));
                }
                out.push(piece);
                pos = i + 1;
            },
            None => {
                proof {
                    let j = index_of_first(suffix, ',', 0);
                    if j < suffix.len() {
                        assert(cap@[pos + j] == ',');
                        lemma_index_of_first(cap@, ',', pos as int);
                        assert(cap@[pos + j] != ',');
                    }
                }
                let piece = substr(cap, pos, cl);
                proof {
                    assert(suffix =~= piece@);
                    assert(split_commas(suffix) == seq![piece@]);
                    assert(views_of(out@.push(piece)) =~= views_of(out@).push(piece@));
                    assert(views_of(out@.push(piece)) =~= views_of(out@) + split_commas(suffix));
                }
                out.push(piece);
                finished = true;
            },
        }
    }
    out
}

/// The cleaned names of one comma-separated capture.
fn clean_name_list(cap: &str) -> (r: Vec<String>)
    ensures
        views_of(r@) == clean_names(cap@),
{
    let parts = split_list(cap);
    let mut out: Vec<String> = Vec::new();
    let mut i: usize = 0;
    proof {
        assert(views_of(parts@).skip(0) =~= views_of(parts@));
        assert(views_of(out@) =~= Seq::<Seq<char>>::empty());
    }
    while i < parts.len()
        invariant
            i <= parts.len(),
            views_of(parts@) == split_commas(cap@),
            clean_pieces(views_of(parts@)) == views_of(out@) + clean_pieces(
                views_of(parts@).skip(i as int),
            ),
        decreases parts.len() - i,
    {
        let ghost rest = views_of(parts@).skip(i as int);
        proof {
            assert(rest[0] == views_of(parts@)[i as int]);
            assert(rest.drop_first() =~= views_of(parts@).skip(i + 1));
        }
        let t = trim(parts[i].as_str());
        if t.unicode_len() > 0 {
            proof {
                assert(views_of(out@.push(t)) =~= views_of(out@).push(t@));
                assert(views_of(out@) + clean_pieces(rest) =~= views_of(out@.push(t))
                    + clean_pieces(views_of(parts@).skip(i + 1)));
            }
            out.push(t);
        } else {
            proof {
                assert(views_of(out@) + clean_pieces(rest) =~= views_of(out@) + clean_pieces(
                    views_of(parts@).skip(i + 1),
                ));
            }
        }
        i += 1;
    }
    proof {
        assert(clean_pieces(views_of(parts@).skip(parts@.len() as int))
            =~= Seq::<Seq<char>>::empty());
        assert(views_of(out@) =~= clean_pieces(views_of(parts@)));
    }
    out
}

/// All cleaned names of a list of comma-separated captures.
fn multi_name_list(caps: &Vec<String>) -> (r: Vec<String>)
    ensures
        views_of(r@) == multi_names(views_of(caps@)),
{
    let mut out: Vec<String> = Vec::new();
    let mut i: usize = 0;
    proof {
        assert(views_of(caps@).skip(0) =~= views_of(caps@));
        assert(views_of(out@) =~= Seq::<Seq<char>>::empty());
        assert(views_of(out@) + multi_names(views_of(caps@)) =~= multi_names(views_of(caps@)));
    }
    while i < caps.len()
        invariant
            i <= caps.len(),
            multi_names(views_of(caps@)) == views_of(out@) + multi_names(
                views_of(caps@).skip(i as int),
            ),
        decreases caps.len() - i,
    {
        let ghost rest = views_of(caps@).skip(i as int);
        proof {
            assert(rest[0] == views_of(caps@)[i as int]);
            assert(rest.drop_first() =~= views_of(caps@).skip(i + 1));
        }
        let cleaned = clean_name_list(caps[i].as_str());
        let mut j: usize = 0;
        while j < cleaned.len()
            invariant
                j <= cleaned.len(),
                views_of(cleaned@) == clean_names(views_of(caps@)[i as int]),
                multi_names(views_of(caps@)) == views_of(out@) + views_of(cleaned@).skip(
                    j as int,
                ) + multi_names(views_of(caps@).skip(i + 1)),
            decreases cleaned.len() - j,
        {
            proof {
                assert(views_of(cleaned@).skip(j as int)[0] == cleaned@[j as int]@);
                assert(views_of(out@.push(cleaned@[j as int])) =~= views_of(out@).push(
                    cleaned@[j as int]@,
                ));
                assert(views_of(out@) + views_of(cleaned@).skip(j as int) =~= views_of(
                    out@.push(cleaned@[j as int]),
                ) + views_of(cleaned@).skip(j + 1));
            }
            let item = cleaned[j].clone();
            out.push(item);
            j += 1;
        }
        proof {
            assert(views_of(cleaned@).skip(cleaned@.len() as int) =~= Seq::<Seq<char>>::empty());
            assert(views_of(out@) + views_of(cleaned@).skip(cleaned@.len() as int) + multi_names(
                views_of(caps@).skip(i + 1),
            ) =~= views_of(out@) + multi_names(views_of(caps@).skip(i + 1)));
        }
        i += 1;
    }
    proof {
        assert(multi_names(views_of(caps@).skip(caps@.len() as int))
            =~= Seq::<Seq<char>>::empty());
        assert(views_of(out@) =~= multi_names(views_of(caps@)));
    }
    out
}

/// The trimmed whole-capture names of a list of captures.
fn single_name_list(caps: &Vec<String>) -> (r: Vec<String>)
    ensures
        views_of(r@) == single_names(views_of(caps@)),
{
    let mut out: Vec<String> = Vec::new();
    let mut i: usize = 0;
    proof {
        assert(views_of(caps@).skip(0) =~= views_of(caps@));
        assert(views_of(out@) =~= Seq::<Seq<char>>::empty());
    }
    while i < caps.len()
        invariant
            i <= caps.len(),
            single_names(views_of(caps@)) == views_of(out@) + single_names(
                views_of(caps@).skip(i as int),
            ),
        decreases caps.len() - i,
    {
        let ghost rest = views_of(caps@).skip(i as int);
        proof {
            assert(rest[0] == views_of(caps@)[i as int]);
            assert(rest.drop_first() =~= views_of(caps@).skip(i + 1));
        }
        let t = trim(caps[i].as_str());
        proof {
            assert(views_of(out@.push(t)) =~= views_of(out@).push(t@));
            assert(views_of(out@) + single_names(rest) =~= views_of(out@.push(t)) + single_names(
                views_of(caps@).skip(i + 1),
            ));
        }
        out.push(t);
        i += 1;
    }
    proof {
        assert(single_names(views_of(caps@).skip(caps@.len() as int))
            =~= Seq::<Seq<char>>::empty());
        assert(views_of(out@) =~= single_names(views_of(caps@)));
    }
    out
}

/// Append one dependency record per name.
fn push_deps(
    deps: &mut Vec<TeXDependency>,
    names: Vec<String>,
    kind: DependencyType,
    line_no: usize,
    ctx: &String,
)
    ensures
        dep_views(final(deps)@) == dep_views(old(deps)@) + names_to_deps(
            views_of(names@),
            kind,
            line_no as int,
            ctx@,
        ),
{
    let mut i: usize = 0;
    proof {
        assert(views_of(names@).skip(0) =~= views_of(names@));
    }
    while i < names.len()
        invariant
            i <= names.len(),
            dep_views(deps@) + names_to_deps(
                views_of(names@).skip(i as int),
                kind,
                line_no as int,
                ctx@,
            ) == dep_views(old(deps)@) + names_to_deps(
                views_of(names@),
                kind,
                line_no as int,
                ctx@,
            ),
        decreases names.len() - i,
    {
        let ghost rest = views_of(names@).skip(i as int);
        proof {
            assert(rest[0] == views_of(names@)[i as int]);
            assert(rest.drop_first() =~= views_of(names@).skip(i + 1));
        }
        let d = TeXDependency {
            package_name: names[i].clone(),
            dependency_type: kind,
            line_number: line_no,
            context: ctx.clone(),
        };
        proof {
            assert(d@ == names_to_deps(rest, kind, line_no as int, ctx@)[0]);
            assert(dep_views(deps@.push(d)) =~= dep_views(deps@).push(d@));
            assert(dep_views(deps@.push(d)) + names_to_deps(
                views_of(names@).skip(i + 1),
                kind,
                line_no as int,
                ctx@,
            ) =~= dep_views(deps@) + names_to_deps(rest, kind, line_no as int, ctx@));
        }
        deps.push(d);
        i += 1;
    }
    proof {
        assert(names_to_deps(
            views_of(names@).skip(names@.len() as int),
            kind,
            line_no as int,
            ctx@,
        ) =~= Seq::<DepModel>::empty());
        assert(dep_views(deps@) =~= dep_views(deps@) + names_to_deps(
            views_of(names@).skip(names@.len() as int),
            kind,
            line_no as int,
            ctx@,
        ));
    }
}

/// Class, size and layout option names that ship with every LaTeX
/// installation and never need installing.
pub open spec fn is_core_package(name: Seq<char>) -> bool {
    ||| name == "latex"@
    ||| name == "latex2e"@
    ||| name == "article"@
    ||| name == "book"@
    ||| name == "report"@
    ||| name == "letter"@
    ||| name == "minimal"@
    ||| name == "size10"@
    ||| name == "size11"@
    ||| name == "size12"@
    ||| name == "a4paper"@
    ||| name == "letterpaper"@
    ||| name == "twoside"@
    ||| name == "oneside"@
    ||| name == "draft"@
    ||| name == "final"@
    ||| name == "leqno"@
    ||| name == "fleqn"@
    ||| name == "openbib"@
    ||| name == "titlepage"@
    ||| name == "notitlepage"@
}

/// Whether `name` is one of the built-in core package names.
fn is_core(name: &str) -> (r: bool)
    ensures
        r == is_core_package(name@),
{
    str_eq(name, "latex") || str_eq(name, "latex2e") || str_eq(name, "article") || str_eq(
        name,
        "book",
    ) || str_eq(name, "report") || str_eq(name, "letter") || str_eq(name, "minimal") || str_eq(
        name,
        "size10",
    ) || str_eq(name, "size11") || str_eq(name, "size12") || str_eq(name, "a4paper") || str_eq(
        name,
        "letterpaper",
    ) || str_eq(name, "twoside") || str_eq(name, "oneside") || str_eq(name, "draft") || str_eq(
        name,
        "final",
    ) || str_eq(name, "leqno") || str_eq(name, "fleqn") || str_eq(name, "openbib") || str_eq(
        name,
        "titlepage",
    ) || str_eq(name, "notitlepage")
}

/// `names` with the core package names removed, order kept.
pub open spec fn spec_filter_core(names: Seq<Seq<char>>) -> Seq<Seq<char>>
    decreases names.len(),
{
    if names.len() == 0 {
        Seq::empty()
    } else {
        (if is_core_package(names[0]) {
            Seq::<Seq<char>>::empty()
        } else {
            seq![names[0]]
        }) + spec_filter_core(names.drop_first())
    }
}

/// Filtering core packages out twice removes nothing more: the pass is
/// idempotent.
pub proof fn lemma_filter_core_idempotent(names: Seq<Seq<char>>)
    ensures
        spec_filter_core(spec_filter_core(names)) == spec_filter_core(names),
    decreases names.len(),
{
    if names.len() > 0 {
        lemma_filter_core_idempotent(names.drop_first());
        if !is_core_package(names[0]) {
            let t = spec_filter_core(names.drop_first());
            assert(spec_filter_core(names) == seq![names[0]] + t);
            assert((seq![names[0]] + t).len() > 0);
            assert((seq![names[0]] + t)[0] == names[0]);
            assert((seq![names[0]] + t).drop_first() =~= t);
        } else {
            assert(spec_filter_core(names) =~= spec_filter_core(names.drop_first()));
        }
    }
}

/// In a strictly sorted list no entry repeats.
pub proof fn lemma_sorted_no_duplicates(v: Seq<Seq<char>>)
    requires
        strictly_sorted(v),
    ensures
        forall|i: int, j: int| 0 <= i < j < v.len() ==> #[trigger] v[i] != #[trigger] v[j],
{
}

/// Scans TeX source text for declaration commands and produces typed
/// dependency records.
pub struct TeXParser {}

impl TeXParser {
    /// A fresh parser. Construction cannot fail; the fallible signature is
    /// kept for callers that expect it.
    pub fn new() -> (r: Result<TeXParser, TpmgrError>)
        ensures
            r is Ok,
    {
        Ok(TeXParser {  })
    }

    /// Extract the dependencies of one comment-stripped line, appending
    /// them in extractor order.
    fn extract_dependencies(
        &self,
        line: &str,
        line_number: usize,
        dependencies: &mut Vec<TeXDependency>,
    )
        ensures
            dep_views(final(dependencies)@) == dep_views(old(dependencies)@) + line_deps(
                line@,
                line_number as int,
            ),
    {
        let ctx = trim(line);
        let caps1 = scan_cmd_caps(line, "\\usepackage", true);
        let names1 = multi_name_list(&caps1);
        push_deps(dependencies, names1, DependencyType::UsePackage, line_number, &ctx);
        let caps2 = scan_cmd_caps(line, "\\RequirePackage", true);
        let names2 = multi_name_list(&caps2);
        push_deps(dependencies, names2, DependencyType::RequirePackage, line_number, &ctx);
        let caps3 = scan_cmd_caps(line, "\\documentclass", true);
        let names3 = single_name_list(&caps3);
        push_deps(dependencies, names3, DependencyType::DocumentClass, line_number, &ctx);
        let caps4 = scan_cmd_caps(line, "\\LoadClass", true);
        let names4 = single_name_list(&caps4);
        push_deps(dependencies, names4, DependencyType::LoadClass, line_number, &ctx);
        let caps5 = scan_cmd_caps(line, "\\input", false);
        let names5 = single_name_list(&caps5);
        push_deps(dependencies, names5, DependencyType::Input, line_number, &ctx);
        let caps6 = scan_cmd_caps(line, "\\include", false);
        let names6 = single_name_list(&caps6);
        push_deps(dependencies, names6, DependencyType::Include, line_number, &ctx);
        let caps7 = scan_cmd_caps(line, "\\bibliography", false);
        let names7 = multi_name_list(&caps7);
        push_deps(dependencies, names7, DependencyType::Bibliography, line_number, &ctx);
        let caps8 = scan_cmd_caps(line, "\\bibliographystyle", false);
        let names8 = single_name_list(&caps8);
        push_deps(dependencies, names8, DependencyType::BibliographyStyle, line_number, &ctx);
        proof {
            assert(dep_views(dependencies@) =~= dep_views(old(dependencies)@) + line_deps(
                line@,
                line_number as int,
            ));
        }
    }

    /// Parse the dependencies of TeX source text. Total: every well-formed
    /// text yields a record list, never an error.
    pub fn parse_content(&self, content: &str) -> (r: Result<Vec<TeXDependency>, TpmgrError>)
        ensures
            r is Ok,
            dep_views((r->Ok_0)@) == content_deps(content@),
    {
        let lines = split_lines(content);
        let mut deps: Vec<TeXDependency> = Vec::new();
        let mut i: usize = 0;
        proof {
            assert(views_of(lines@).skip(0) =~= views_of(lines@));
            assert(dep_views(deps@) =~= Seq::<DepModel>::empty());
        }
        while i < lines.len()
            invariant
                i <= lines.len(),
                views_of(lines@) == spec_lines(content@),
                content_deps(content@) == dep_views(deps@) + lines_deps(
                    views_of(lines@).skip(i as int),
                    i + 1,
                ),
            decreases lines.len() - i,
        {
            let ghost rest = views_of(lines@).skip(i as int);
            proof {
                assert(rest[0] == views_of(lines@)[i as int]);
                assert(rest.drop_first() =~= views_of(lines@).skip(i + 1));
            }
            match effective_line_exec(lines[i].as_str()) {
                Some(el) => {
                    let ghost before = dep_views(deps@);
                    self.extract_dependencies(el.as_str(), i + 1, &mut deps);
                    proof {
                        assert(lines_deps(rest, i + 1 as int) == line_deps(el@, i + 1 as int)
                            + lines_deps(views_of(lines@).skip(i + 1), i + 2));
                        assert(dep_views(deps@) + lines_deps(views_of(lines@).skip(i + 1), i + 2)
                            =~= before + lines_deps(rest, i + 1 as int));
                    }
                },
                None => {
                    proof {
                        assert(lines_deps(rest, i + 1 as int) == lines_deps(
                            views_of(lines@).skip(i + 1),
                            i + 2,
                        ));
                    }
                },
            }
            i += 1;
        }
        proof {
            assert(lines_deps(views_of(lines@).skip(lines@.len() as int), i + 1)
                =~= Seq::<DepModel>::empty());
            assert(content_deps(content@) =~= dep_views(deps@));
        }
        Ok(deps)
    }

    /// The distinct installable package names among `dependencies`, in
    /// ascending order: exactly the names of records whose kind names a
    /// package rather than a file.
    pub fn get_unique_packages(dependencies: &[TeXDependency]) -> (r: Vec<String>)
        ensures
            strictly_sorted(views_of(r@)),
            forall|y: Seq<char>|
                contains_str(views_of(r@), y) <==> (exists|k: int|
                    0 <= k < dependencies@.len() && (#[trigger] dependencies@[k])@.name == y
                        && is_installable_kind(dependencies@[k]@.kind)),
    {
        let n: usize = dependencies.len();
        let mut out: Vec<String> = Vec::new();
        let mut i: usize = 0;
        while i < n
            invariant
                i <= n,
                n == dependencies@.len(),
                strictly_sorted(views_of(out@)),
                forall|y: Seq<char>|
                    contains_str(views_of(out@), y) <==> (exists|k: int|
                        0 <= k < i && (#[trigger] dependencies@[k])@.name == y
                            && is_installable_kind(dependencies@[k]@.kind)),
            decreases n - i,
        {
            let d = vstd::slice::slice_index_get(dependencies, i);
            let installable = match d.dependency_type {
                DependencyType::UsePackage => true,
                DependencyType::RequirePackage => true,
                DependencyType::DocumentClass => true,
                DependencyType::LoadClass => true,
                _ => false,
            };
            if installable {
                sorted_insert_unique(&mut out, d.package_name.clone());
            }
            i += 1;
        }
        out
    }

    /// `packages` without the built-in core package names, order kept.
    pub fn filter_core_packages(packages: &[String]) -> (r: Vec<String>)
        ensures
            views_of(r@) == spec_filter_core(views_of(packages@)),
    {
        let n: usize = packages.len();
        let mut out: Vec<String> = Vec::new();
        let mut i: usize = 0;
        proof {
            assert(views_of(packages@).skip(0) =~= views_of(packages@));
            assert(views_of(out@) =~= Seq::<Seq<char>>::empty());
        }
        while i < n
            invariant
                i <= n,
                n == packages@.len(),
                spec_filter_core(views_of(packages@)) == views_of(out@) + spec_filter_core(
                    views_of(packages@).skip(i as int),
                ),
            decreases n - i,
        {
            let ghost rest = views_of(packages@).skip(i as int);
            proof {
                assert(rest[0] == views_of(packages@)[i as int]);
                assert(rest.drop_first() =~= views_of(packages@).skip(i + 1));
            }
            let p = vstd::slice::slice_index_get(packages, i);
            if !is_core(p.as_str()) {
                let item = p.clone();
                proof {
                    assert(views_of(out@.push(item)) =~= views_of(out@).push(item@));
                    assert(views_of(out@) + spec_filter_core(rest) =~= views_of(out@.push(item))
                        + spec_filter_core(views_of(packages@).skip(i + 1)));
                }
                out.push(item);
            } else {
                proof {
                    assert(views_of(out@) + spec_filter_core(rest) =~= views_of(out@)
                        + spec_filter_core(views_of(packages@).skip(i + 1)));
                }
            }
            i += 1;
        }
        proof {
            assert(spec_filter_core(views_of(packages@).skip(n as int))
                =~= Seq::<Seq<char>>::empty());
            assert(views_of(out@) =~= spec_filter_core(views_of(packages@)));
        }
        out
    }
}

/// Whether a file extension, already lower-cased, marks a TeX source file
/// the project-wide scan parses.
pub fn is_tex_source_extension(ext: &str) -> (r: bool)
    ensures
        r == (ext@ == "tex"@ || ext@ == "latex"@ || ext@ == "sty"@ || ext@ == "cls"@),
{
    str_eq(ext, "tex") || str_eq(ext, "latex") || str_eq(ext, "sty") || str_eq(ext, "cls")
}

/// Whether the project-wide scan skips a directory of this name: the
/// package directory, the version-control directory, and every hidden
/// directory.
pub fn is_skipped_directory(name: &str) -> (r: bool)
    ensures
        r == (name@ == "packages"@ || name@ == ".git"@ || (name@.len() > 0 && name@[0] == '.')),
{
    if str_eq(name, "packages") {
        return true;
    }
    let nl: usize = vstd::string::StrSliceExecFns::unicode_len(name);
    if nl > 0 && vstd::string::StrSliceExecFns::get_char(name, 0) == '.' {
        proof {
            reveal_strlit(".git");
        }
        return true;
    }
    proof {
        reveal_strlit(".git");
        assert((".git"@).len() == 4);
        assert((".git"@)[0] == '.');
        if name@ == ".git"@ {
            assert(name@[0] == '.');
        }
    }
    false
}

proof fn lemma_names_to_deps_fields(names: Seq<Seq<char>>, kind: DependencyType, line: int, ctx: Seq<char>)
    ensures
        names_to_deps(names, kind, line, ctx).len() == names.len(),
        forall|k: int|
            0 <= k < names.len() ==> (#[trigger] names_to_deps(names, kind, line, ctx)[k]).line
                == line && names_to_deps(names, kind, line, ctx)[k].kind == kind,
    decreases names.len(),
{
    if names.len() > 0 {
        lemma_names_to_deps_fields(names.drop_first(), kind, line, ctx);
    }
}

proof fn lemma_line_deps_line(l: Seq<char>, n: int)
    ensures
        forall|k: int|
            0 <= k < line_deps(l, n).len() ==> (#[trigger] line_deps(l, n)[k]).line == n,
{
    let c1 = spec_trim(l);
    lemma_names_to_deps_fields(
        multi_names(scan_caps(l, "\\usepackage"@, true, 0)),
        DependencyType::UsePackage,
        n,
        c1,
    );
    lemma_names_to_deps_fields(
        multi_names(scan_caps(l, "\\RequirePackage"@, true, 0)),
        DependencyType::RequirePackage,
        n,
        c1,
    );
    lemma_names_to_deps_fields(
        single_names(scan_caps(l, "\\documentclass"@, true, 0)),
        DependencyType::DocumentClass,
        n,
        c1,
    );
    lemma_names_to_deps_fields(
        single_names(scan_caps(l, "\\LoadClass"@, true, 0)),
        DependencyType::LoadClass,
        n,
        c1,
    );
    lemma_names_to_deps_fields(
        single_names(scan_caps(l, "\\input"@, false, 0)),
        DependencyType::Input,
        n,
        c1,
    );
    lemma_names_to_deps_fields(
        single_names(scan_caps(l, "\\include"@, false, 0)),
        DependencyType::Include,
        n,
        c1,
    );
    lemma_names_to_deps_fields(
        multi_names(scan_caps(l, "\\bibliography"@, false, 0)),
        DependencyType::Bibliography,
        n,
        c1,
    );
    lemma_names_to_deps_fields(
        single_names(scan_caps(l, "\\bibliographystyle"@, false, 0)),
        DependencyType::BibliographyStyle,
        n,
        c1,
    );
}

proof fn lemma_lines_deps_lines(lines: Seq<Seq<char>>, n: int)
    ensures
        forall|k: int|
            0 <= k < lines_deps(lines, n).len() ==> n <= (#[trigger] lines_deps(lines, n)[k]).line
                < n + lines.len(),
        forall|k1: int, k2: int|
            0 <= k1 <= k2 < lines_deps(lines, n).len() ==> (#[trigger] lines_deps(lines, n)[k1]).line
                <= (#[trigger] lines_deps(lines, n)[k2]).line,
    decreases lines.len(),
{
    if lines.len() > 0 {
        lemma_lines_deps_lines(lines.drop_first(), n + 1);
        match effective_line(lines[0]) {
            Some(el) => {
                lemma_line_deps_line(el, n);
            },
            None => {},
        }
    }
}

/// Every dependency record a parse yields carries a 1-based line number no
/// larger than the number of lines, and records appear in non-decreasing
/// line order.
pub proof fn lemma_content_deps_lines_monotone(text: Seq<char>)
    ensures
        forall|k: int|
            0 <= k < content_deps(text).len() ==> 1 <= (#[trigger] content_deps(text)[k]).line
                <= spec_lines(text).len(),
        forall|k1: int, k2: int|
            0 <= k1 <= k2 < content_deps(text).len() ==> (#[trigger] content_deps(text)[k1]).line
                <= (#[trigger] content_deps(text)[k2]).line,
{
    lemma_lines_deps_lines(spec_lines(text), 1);
}

} // verus!
