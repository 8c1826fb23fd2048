//! Compile-chain and project configuration: the step list a build runs, the
//! placeholder variables its arguments may embed, and the key/value surface
//! of the global and per-project settings.
use vstd::prelude::*;
use vstd::string::StringExecFns;

use crate::error::TpmgrError;
use crate::text::{
    spec_replace, spec_trim, spec_words, split_at_char, split_char, str_eq, replace_all, trim,
    views_of, words,
};

verus! {

/// One step of a compile chain: a tool and its arguments.
#[derive(Debug, Clone)]
pub struct CompileStep {
    pub tool: String,
    pub args: Vec<String>,
}

/// Mathematical model of a compile step.
pub struct CompileStepModel {
    pub tool: Seq<char>,
    pub args: Seq<Seq<char>>,
}

impl View for CompileStep {
    type V = CompileStepModel;

    open spec fn view(&self) -> CompileStepModel {
        CompileStepModel { tool: self.tool@, args: views_of(self.args@) }
    }
}

/// The models of a sequence of compile steps.
pub open spec fn step_models(v: Seq<CompileStep>) -> Seq<CompileStepModel> {
    v.map_values(|s: CompileStep| s@)
}

/// An ordered compile chain with its cleanup configuration.
#[derive(Debug, Clone)]
pub struct CompileCommand {
    pub steps: Vec<CompileStep>,
    pub auto_clean: bool,
    pub clean_patterns: Vec<String>,
}

/// Mathematical model of a compile command.
pub struct CompileCommandModel {
    pub steps: Seq<CompileStepModel>,
    pub auto_clean: bool,
    pub clean_patterns: Seq<Seq<char>>,
}

impl View for CompileCommand {
    type V = CompileCommandModel;

    open spec fn view(&self) -> CompileCommandModel {
        CompileCommandModel {
            steps: step_models(self.steps@),
            auto_clean: self.auto_clean,
            clean_patterns: views_of(self.clean_patterns@),
        }
    }
}

/// The default cleanup glob patterns for intermediate TeX files.
pub open spec fn default_clean_patterns_spec() -> Seq<Seq<char>> {
    seq![
        "*.aux"@,
        "*.log"@,
        "*.out"@,
        "*.toc"@,
        "*.lot"@,
        "*.lof"@,
        "*.nav"@,
        "*.snm"@,
        "*.vrb"@,
        "*.bbl"@,
        "*.blg"@,
        "*.idx"@,
        "*.ind"@,
        "*.ilg"@,
        "*.glo"@,
        "*.gls"@,
        "*.ist"@,
        "*.fls"@,
        "*.fdb_latexmk"@,
        "*.synctex.gz"@,
        "*.synctex(busy)"@,
        "*.pdfsync"@,
        "*.figlist"@,
        "*.makefile"@,
        "*.figlist.bak"@,
        "*.makefile.bak"@,
        "*.thm"@,
        "*.pyg"@,
        "*.auxlock"@,
        "*.bcf"@,
        "*.run.xml"@,
    ]
}

/// The step a chain piece yields: its first word is the tool, the rest are
/// arguments; a piece without words yields no step.
pub open spec fn steps_of(parts: Seq<Seq<char>>) -> Seq<CompileStepModel>
    decreases parts.len(),
{
    if parts.len() == 0 {
        Seq::empty()
    } else {
        let ws = spec_words(parts[0]);
        (if ws.len() == 0 {
            Seq::empty()
        } else {
            seq![CompileStepModel { tool: ws[0], args: ws.drop_first() }]
        }) + steps_of(parts.drop_first())
    }
}

/// The steps a chain string describes, split at each pipe.
pub open spec fn spec_steps_from(cmd: Seq<char>) -> Seq<CompileStepModel> {
    steps_of(split_at_char(cmd, '|'))
}

/// The words joined by `sep`.
pub open spec fn join_words(ws: Seq<Seq<char>>, sep: Seq<char>) -> Seq<char>
    decreases ws.len(),
{
    if ws.len() == 0 {
        Seq::empty()
    } else if ws.len() == 1 {
        ws[0]
    } else {
        ws[0] + sep + join_words(ws.drop_first(), sep)
    }
}

proof fn lemma_join_push(ws: Seq<Seq<char>>, sep: Seq<char>, w: Seq<char>)
    ensures
        join_words(ws.push(w), sep) == if ws.len() == 0 {
            w
        } else {
            join_words(ws, sep) + sep + w
        },
    decreases ws.len(),
{
    let p = ws.push(w);
    if ws.len() == 0 {
        assert(p.len() == 1);
        assert(p[0] == w);
    } else {
        assert(p[0] == ws[0]);
        assert(p.drop_first() =~= ws.drop_first().push(w));
        lemma_join_push(ws.drop_first(), sep, w);
        if ws.len() == 1 {
            assert(join_words(p, sep) == p[0] + sep + join_words(p.drop_first(), sep));
            assert(join_words(p.drop_first(), sep) == w);
            assert(join_words(ws, sep) == ws[0]);
        } else {
            assert(join_words(p, sep) == p[0] + sep + join_words(p.drop_first(), sep));
            assert(join_words(ws.drop_first().push(w), sep) == join_words(ws.drop_first(), sep)
                + sep + w);
            assert(ws[0] + sep + (join_words(ws.drop_first(), sep) + sep + w) =~= (ws[0] + sep
                + join_words(ws.drop_first(), sep)) + sep + w);
        }
    }
}

/// The display strings of the steps.
pub open spec fn steps_strings(steps: Seq<CompileStepModel>) -> Seq<Seq<char>>
    decreases steps.len(),
{
    if steps.len() == 0 {
        Seq::empty()
    } else {
        seq![join_words(seq![steps[0].tool] + steps[0].args, " "@)] + steps_strings(
            steps.drop_first(),
        )
    }
}

/// The display form of a whole chain: steps joined by pipes.
pub open spec fn command_string(steps: Seq<CompileStepModel>) -> Seq<char> {
    join_words(steps_strings(steps), " | "@)
}

/// One argument with its placeholder variables substituted.
pub open spec fn resolve_arg(
    arg: Seq<char>,
    root: Seq<char>,
    cur: Seq<char>,
    home: Option<Seq<char>>,
) -> Seq<char> {
    let a1 = spec_replace(arg, "${PROJECT_ROOT}"@, root);
    let a2 = spec_replace(a1, "${CURRENT_DIR}"@, cur);
    match home {
        Some(h) => spec_replace(a2, "${HOME}"@, h),
        None => a2,
    }
}

/// All arguments substituted, in order.
pub open spec fn resolve_args(
    args: Seq<Seq<char>>,
    root: Seq<char>,
    cur: Seq<char>,
    home: Option<Seq<char>>,
) -> Seq<Seq<char>>
    decreases args.len(),
{
    if args.len() == 0 {
        Seq::empty()
    } else {
        seq![resolve_arg(args[0], root, cur, home)] + resolve_args(args.drop_first(), root, cur, home)
    }
}

/// The fully resolved command lines: for each step its tool, then its
/// substituted arguments.
pub open spec fn resolve_steps(
    steps: Seq<CompileStepModel>,
    root: Seq<char>,
    cur: Seq<char>,
    home: Option<Seq<char>>,
) -> Seq<Seq<Seq<char>>>
    decreases steps.len(),
{
    if steps.len() == 0 {
        Seq::empty()
    } else {
        seq![seq![steps[0].tool] + resolve_args(steps[0].args, root, cur, home)] + resolve_steps(
            steps.drop_first(),
            root,
            cur,
            home,
        )
    }
}

/// The models of a list of command lines.
pub open spec fn lines_views(v: Seq<Vec<String>>) -> Seq<Seq<Seq<char>>>
    decreases v.len(),
{
    if v.len() == 0 {
        Seq::empty()
    } else {
        seq![views_of(v[0]@)] + lines_views(v.drop_first())
    }
}

impl CompileCommand {
    /// The default chain: one `pdflatex` run on the project root's main
    /// file, with cleaning disabled.
    pub fn new() -> (r: CompileCommand)
        ensures
            r@.steps.len() == 1,
            r@.steps[0].tool == "pdflatex"@,
            r@.steps[0].args == seq!["-interaction=nonstopmode"@, "${PROJECT_ROOT}/main.tex"@],
            r@.auto_clean == false,
            r@.clean_patterns == default_clean_patterns_spec(),
    {
        let mut args: Vec<String> = Vec::new();
        args.push(String::from_str("-interaction=nonstopmode"));
        args.push(String::from_str("${PROJECT_ROOT}/main.tex"));
        proof {
            assert(views_of(args@) =~= seq![
                "-interaction=nonstopmode"@,
                "${PROJECT_ROOT}/main.tex"@,
            ]);
        }
        let step = CompileStep { tool: String::from_str("pdflatex"), args };
        let mut steps: Vec<CompileStep> = Vec::new();
        steps.push(step);
        proof {
            assert(step_models(steps@) =~= seq![steps@[0]@]);
        }
        CompileCommand { steps, auto_clean: false, clean_patterns: Self::default_clean_patterns() }
    }

    /// The built-in cleanup patterns.
    fn default_clean_patterns() -> (r: Vec<String>)
        ensures
            views_of(r@) == default_clean_patterns_spec(),
    {
        let mut v: Vec<String> = Vec::new();
        v.push(String::from_str("*.aux"));
        v.push(String::from_str("*.log"));
        v.push(String::from_str("*.out"));
        v.push(String::from_str("*.toc"));
        v.push(String::from_str("*.lot"));
        v.push(String::from_str("*.lof"));
        v.push(String::from_str("*.nav"));
        v.push(String::from_str("*.snm"));
        v.push(String::from_str("*.vrb"));
        v.push(String::from_str("*.bbl"));
        v.push(String::from_str("*.blg"));
        v.push(String::from_str("*.idx"));
        v.push(String::from_str("*.ind"));
        v.push(String::from_str("*.ilg"));
        v.push(String::from_str("*.glo"));
        v.push(String::from_str("*.gls"));
        v.push(String::from_str("*.ist"));
        v.push(String::from_str("*.fls"));
        v.push(String::from_str("*.fdb_latexmk"));
        v.push(String::from_str("*.synctex.gz"));
        v.push(String::from_str("*.synctex(busy)"));
        v.push(String::from_str("*.pdfsync"));
        v.push(String::from_str("*.figlist"));
        v.push(String::from_str("*.makefile"));
        v.push(String::from_str("*.figlist.bak"));
        v.push(String::from_str("*.makefile.bak"));
        v.push(String::from_str("*.thm"));
        v.push(String::from_str("*.pyg"));
        v.push(String::from_str("*.auxlock"));
        v.push(String::from_str("*.bcf"));
        v.push(String::from_str("*.run.xml"));
        proof {
            assert(views_of(v@) =~= default_clean_patterns_spec());
        }
        v
    }

    /// Parse a chain string: pieces separated by pipes, each piece a tool
    /// followed by its arguments. A string without any step is rejected.
    pub fn from_string(command: &str) -> (r: Result<CompileCommand, TpmgrError>)
        ensures
            spec_steps_from(command@).len() == 0 ==> (r matches Err(e) && e matches
                TpmgrError::InvalidFormat { message } && message@
                == "No valid compile steps found"@),
            spec_steps_from(command@).len() > 0 ==> (r matches Ok(c) && c@.steps
                == spec_steps_from(command@) && c@.auto_clean == false && c@.clean_patterns
                == default_clean_patterns_spec()),
    {
        let parts = split_char(command, '|');
        let mut steps: Vec<CompileStep> = Vec::new();
        let mut i: usize = 0;
        proof {
            assert(views_of(parts@).skip(0) =~= views_of(parts@));
            assert(step_models(steps@) =~= Seq::<CompileStepModel>::empty());
        }
        while i < parts.len()
            invariant
                i <= parts.len(),
                views_of(parts@) == split_at_char(command@, '|'),
                spec_steps_from(command@) == step_models(steps@) + steps_of(
                    views_of(parts@).skip(i as int),
                ),
            decreases parts.len() - i,
        {
            let ghost rest = views_of(parts@).skip(i as int);
            proof {
                assert(rest[0] == views_of(parts@)[i as int]);
                assert(rest.drop_first() =~= views_of(parts@).skip(i + 1));
            }
            let mut ws = words(parts[i].as_str());
            if ws.len() > 0 {
                let tool = ws.remove(0);
                proof {
                    assert(views_of(ws@) =~= spec_words(rest[0]).drop_first());
                }
                let step = CompileStep { tool, args: ws };
                proof {
                    assert(step@ == CompileStepModel {
                        tool: spec_words(rest[0])[0],
                        args: spec_words(rest[0]).drop_first(),
                    });
                    assert(step_models(steps@.push(step)) =~= step_models(steps@).push(step@));
                    assert(step_models(steps@) + steps_of(rest) =~= step_models(steps@.push(step))
                        + steps_of(views_of(parts@).skip(i + 1)));
                }
                steps.push(step);
            } else {
                proof {
                    assert(step_models(steps@) + steps_of(rest) =~= step_models(steps@) + steps_of(
                        views_of(parts@).skip(i + 1),
                    ));
                }
            }
            i += 1;
        }
        proof {
            assert(steps_of(views_of(parts@).skip(parts@.len() as int))
                =~= Seq::<CompileStepModel>::empty());
            assert(step_models(steps@) =~= spec_steps_from(command@));
        }
        if steps.len() == 0 {
            return Err(
                TpmgrError::InvalidFormat {
                    message: String::from_str("No valid compile steps found"),
                },
            );
        }
        Ok(
            CompileCommand {
                steps,
                auto_clean: false,
                clean_patterns: Self::default_clean_patterns(),
            },
        )
    }

    /// Parse a chain string; kept as another name for `from_string`.
    pub fn from_chain(chain: &str) -> (r: Result<CompileCommand, TpmgrError>)
        ensures
            spec_steps_from(chain@).len() == 0 ==> r is Err,
            spec_steps_from(chain@).len() > 0 ==> (r matches Ok(c) && c@.steps == spec_steps_from(
                chain@,
            ) && c@.auto_clean == false && c@.clean_patterns == default_clean_patterns_spec()),
    {
        Self::from_string(chain)
    }

    /// The display form of the chain: steps joined by pipes, each step its
    /// tool and arguments joined by spaces.
    pub fn to_string(&self) -> (r: String)
        ensures
            r@ == command_string(self@.steps),
    {
        let ghost sm = step_models(self.steps@);
        let mut parts: Vec<String> = Vec::new();
        let mut i: usize = 0;
        proof {
            assert(views_of(parts@) =~= Seq::<Seq<char>>::empty());
            assert(steps_strings(sm.subrange(0, 0)) =~= Seq::<Seq<char>>::empty());
        }
        while i < self.steps.len()
            invariant
                i <= self.steps@.len(),
                sm == step_models(self.steps@),
                views_of(parts@) == steps_strings(sm.subrange(0, i as int)),
            decreases self.steps@.len() - i,
        {
            let st = &self.steps[i];
            let ghost stm = sm[i as int];
            let mut s = st.tool.clone();
            let mut j: usize = 0;
            proof {
                assert((seq![stm.tool] + stm.args.subrange(0, 0)) =~= seq![stm.tool]);
                assert(join_words(seq![stm.tool], " "@) == stm.tool);
            }
            while j < st.args.len()
                invariant
                    j <= st.args@.len(),
                    stm == sm[i as int],
                    i < self.steps@.len(),
                    sm == step_models(self.steps@),
                    st == self.steps@[i as int],
                    stm.args == views_of(st.args@),
                    s@ == join_words(seq![stm.tool] + stm.args.subrange(0, j as int), " "@),
                decreases st.args@.len() - j,
            {
                let ghost pref = seq![stm.tool] + stm.args.subrange(0, j as int);
                s = s.concat(" ").concat(st.args[j].as_str());
                proof {
                    lemma_join_push(pref, " "@, stm.args[j as int]);
                    assert(pref.push(stm.args[j as int]) =~= seq![stm.tool] + stm.args.subrange(
                        0,
                        j + 1,
                    ));
                    assert(s@ =~= join_words(pref, " "@) + " "@ + stm.args[j as int]);
                }
                j += 1;
            }
            proof {
                assert(stm.args.subrange(0, stm.args.len() as int) =~= stm.args);
            }
            let ghost parts0 = views_of(parts@);
            parts.push(s);
            proof {
                assert(views_of(parts@) =~= parts0.push(
                    join_words(seq![stm.tool] + stm.args, " "@),
                ));
                assert(steps_strings(sm.subrange(0, i + 1)) =~= steps_strings(
                    sm.subrange(0, i as int),
                ).push(join_words(seq![stm.tool] + stm.args, " "@))) by {
                    assert(sm.subrange(0, i + 1) =~= sm.subrange(0, i as int).push(sm[i as int]));
                    lemma_steps_strings_app(sm.subrange(0, i as int), sm[i as int]);
                }
            }
            i += 1;
        }
        proof {
            assert(sm.subrange(0, sm.len() as int) =~= sm);
        }
        let mut out = String::new();
        let mut k: usize = 0;
        proof {
            assert(steps_strings(sm).subrange(0, 0) =~= Seq::<Seq<char>>::empty());
        }
        while k < parts.len()
            invariant
                k <= parts@.len(),
                views_of(parts@) == steps_strings(sm),
                out@ == join_words(steps_strings(sm).subrange(0, k as int), " | "@),
            decreases parts@.len() - k,
        {
            let ghost pref = steps_strings(sm).subrange(0, k as int);
            if k > 0 {
                out = out.concat(" | ");
            }
            out = out.concat(parts[k].as_str());
            proof {
                lemma_join_push(pref, " | "@, views_of(parts@)[k as int]);
                assert(pref.push(views_of(parts@)[k as int]) =~= steps_strings(sm).subrange(
                    0,
                    k + 1,
                ));
                if k == 0 {
                    assert(out@ =~= views_of(parts@)[0]);
                } else {
                    assert(out@ =~= join_words(pref, " | "@) + " | "@ + views_of(parts@)[k as int]);
                }
            }
            k += 1;
        }
        proof {
            assert(steps_strings(sm).subrange(0, parts@.len() as int) =~= steps_strings(sm));
        }
        out
    }

    /// Substitute the placeholder variables in every step's arguments
    /// against the given project root, working directory, and home
    /// directory, and return the command lines to run; the home placeholder
    /// is left alone when no home directory is known.
    pub fn resolve_variables(&self, project_root: &str, current_dir: &str, home: Option<&str>) -> (r:
        Result<Vec<Vec<String>>, TpmgrError>)
        ensures
            r matches Ok(v) && lines_views(v@) == resolve_steps(
                self@.steps,
                project_root@,
                current_dir@,
                match home {
                    Some(h) => Some(h@),
                    None => None,
                },
            ),
    {
        let ghost sm = step_models(self.steps@);
        let ghost hv: Option<Seq<char>> = match home {
            Some(h) => Some(h@),
            None => None,
        };
        let mut out: Vec<Vec<String>> = Vec::new();
        let mut i: usize = 0;
        proof {
            assert(lines_views(out@) =~= Seq::<Seq<Seq<char>>>::empty());
            assert(sm.skip(0) =~= sm);
            assert(lines_views(out@) + resolve_steps(sm.skip(0), project_root@, current_dir@, hv)
                =~= resolve_steps(sm, project_root@, current_dir@, hv));
        }
        while i < self.steps.len()
            invariant
                i <= self.steps@.len(),
                sm == step_models(self.steps@),
                hv == (match home {
                    Some(h) => Some(h@),
                    None => None,
                }),
                resolve_steps(sm, project_root@, current_dir@, hv) == lines_views(out@)
                    + resolve_steps(sm.skip(i as int), project_root@, current_dir@, hv),
            decreases self.steps@.len() - i,
        {
            let ghost rest = sm.skip(i as int);
            proof {
                assert(rest[0] == sm[i as int]);
                assert(rest.drop_first() =~= sm.skip(i + 1));
            }
            let st = &self.steps[i];
            let mut line: Vec<String> = Vec::new();
            line.push(st.tool.clone());
            let mut j: usize = 0;
            proof {
                assert(views_of(line@) =~= seq![sm[i as int].tool] + resolve_args(
                    sm[i as int].args.subrange(0, 0),
                    project_root@,
                    current_dir@,
                    hv,
                ));
            }
            while j < st.args.len()
                invariant
                    j <= st.args@.len(),
                    i < self.steps@.len(),
                    sm == step_models(self.steps@),
                    st == self.steps@[i as int],
                    views_of(st.args@) == sm[i as int].args,
                    hv == (match home {
                        Some(h) => Some(h@),
                        None => None,
                    }),
                    views_of(line@) == seq![sm[i as int].tool] + resolve_args(
                        sm[i as int].args.subrange(0, j as int),
                        project_root@,
                        current_dir@,
                        hv,
                    ),
                decreases st.args@.len() - j,
            {
                let a1 = replace_all(st.args[j].as_str(), "${PROJECT_ROOT}", project_root);
                let a2 = replace_all(a1.as_str(), "${CURRENT_DIR}", current_dir);
                let a3 = match home {
                    Some(h) => replace_all(a2.as_str(), "${HOME}", h),
                    None => a2,
                };
                proof {
                    assert(a3@ == resolve_arg(
                        sm[i as int].args[j as int],
                        project_root@,
                        current_dir@,
                        hv,
                    ));
                    assert(sm[i as int].args.subrange(0, j + 1) =~= sm[i as int].args.subrange(
                        0,
                        j as int,
                    ).push(sm[i as int].args[j as int]));
                    lemma_resolve_args_app(
                        sm[i as int].args.subrange(0, j as int),
                        sm[i as int].args[j as int],
                        project_root@,
                        current_dir@,
                        hv,
                    );
                    assert(views_of(line@.push(a3)) =~= views_of(line@).push(a3@));
                    assert(views_of(line@).push(a3@) =~= seq![sm[i as int].tool] + resolve_args(
                        sm[i as int].args.subrange(0, j + 1),
                        project_root@,
                        current_dir@,
                        hv,
                    ));
                }
                line.push(a3);
                j += 1;
            }
            proof {
                assert(sm[i as int].args.subrange(0, sm[i as int].args.len() as int) =~= sm[
                    i as int].args);
                assert(resolve_steps(rest, project_root@, current_dir@, hv) == seq![
                    seq![rest[0].tool] + resolve_args(rest[0].args, project_root@, current_dir@, hv),
                ] + resolve_steps(sm.skip(i + 1), project_root@, current_dir@, hv));
            }
            let ghost lv0 = lines_views(out@);
            proof {
                lemma_lines_views_app(out@, line);
            }
            out.push(line);
            proof {
                assert(lines_views(out@) =~= lv0.push(
                    seq![rest[0].tool] + resolve_args(rest[0].args, project_root@, current_dir@, hv),
                ));
                assert(lv0 + resolve_steps(rest, project_root@, current_dir@, hv) =~= lines_views(
                    out@,
                ) + resolve_steps(sm.skip(i + 1), project_root@, current_dir@, hv));
            }
            i += 1;
        }
        proof {
            assert(resolve_steps(sm.skip(sm.len() as int), project_root@, current_dir@, hv)
                =~= Seq::<Seq<Seq<char>>>::empty());
            assert(lines_views(out@) =~= lines_views(out@) + resolve_steps(
                sm.skip(sm.len() as int),
                project_root@,
                current_dir@,
                hv,
            ));
        }
        Ok(out)
    }

    /// The placeholder variables the chain arguments may embed.
    pub fn supported_variables() -> (r: Vec<&'static str>)
        ensures
            r@.len() == 3,
            r@[0]@ == "${PROJECT_ROOT}"@,
            r@[1]@ == "${CURRENT_DIR}"@,
            r@[2]@ == "${HOME}"@,
    {
        let mut v: Vec<&'static str> = Vec::new();
        v.push("${PROJECT_ROOT}");
        v.push("${CURRENT_DIR}");
        v.push("${HOME}");
        v
    }
}

proof fn lemma_steps_strings_app(s: Seq<CompileStepModel>, x: CompileStepModel)
    ensures
        steps_strings(s.push(x)) == steps_strings(s).push(
            join_words(seq![x.tool] + x.args, " "@),
        ),
    decreases s.len(),
{
    let p = s.push(x);
    if s.len() == 0 {
        assert(p[0] == x);
        assert(p.drop_first() =~= Seq::<CompileStepModel>::empty());
        assert(steps_strings(p.drop_first()) =~= Seq::<Seq<char>>::empty());
        assert(steps_strings(p) =~= steps_strings(s).push(
            join_words(seq![x.tool] + x.args, " "@),
        ));
    } else {
        assert(p[0] == s[0]);
        assert(p.drop_first() =~= s.drop_first().push(x));
        lemma_steps_strings_app(s.drop_first(), x);
        assert(steps_strings(p) =~= steps_strings(s).push(
            join_words(seq![x.tool] + x.args, " "@),
        ));
    }
}

proof fn lemma_resolve_args_app(
    args: Seq<Seq<char>>,
    x: Seq<char>,
    root: Seq<char>,
    cur: Seq<char>,
    home: Option<Seq<char>>,
)
    ensures
        resolve_args(args.push(x), root, cur, home) == resolve_args(args, root, cur, home).push(
            resolve_arg(x, root, cur, home),
        ),
    decreases args.len(),
{
    let p = args.push(x);
    if args.len() == 0 {
        assert(p[0] == x);
        assert(p.drop_first() =~= Seq::<Seq<char>>::empty());
        assert(resolve_args(p.drop_first(), root, cur, home) =~= Seq::<Seq<char>>::empty());
        assert(resolve_args(p, root, cur, home) =~= resolve_args(args, root, cur, home).push(
            resolve_arg(x, root, cur, home),
        ));
    } else {
        assert(p[0] == args[0]);
        assert(p.drop_first() =~= args.drop_first().push(x));
        lemma_resolve_args_app(args.drop_first(), x, root, cur, home);
        assert(resolve_args(p, root, cur, home) =~= resolve_args(args, root, cur, home).push(
            resolve_arg(x, root, cur, home),
        ));
    }
}

proof fn lemma_lines_views_app(v: Seq<Vec<String>>, x: Vec<String>)
    ensures
        lines_views(v.push(x)) == lines_views(v).push(views_of(x@)),
    decreases v.len(),
{
    let p = v.push(x);
    if v.len() == 0 {
        assert(p[0] == x);
        assert(p.drop_first() =~= Seq::<Vec<String>>::empty());
        assert(lines_views(p.drop_first()) =~= Seq::<Seq<Seq<char>>>::empty());
        assert(lines_views(p) =~= lines_views(v).push(views_of(x@)));
    } else {
        assert(p[0] == v[0]);
        assert(p.drop_first() =~= v.drop_first().push(x));
        lemma_lines_views_app(v.drop_first(), x);
        assert(lines_views(p) =~= lines_views(v).push(views_of(x@)));
    }
}

} // verus!

verus! {

/// The view of an optional string.
pub open spec fn opt_view(o: Option<String>) -> Option<Seq<char>> {
    match o {
        Some(s) => Some(s@),
        None => None,
    }
}

/// Whether an optional string result carries exactly the model `m`.
pub open spec fn opt_str_matches(r: Option<String>, m: Option<Seq<char>>) -> bool {
    match r {
        Some(s) => m == Some(s@),
        None => m is None,
    }
}

/// A copy of an optional string.
fn opt_clone(o: &Option<String>) -> (r: Option<String>)
    ensures
        opt_view(r) == opt_view(*o),
{
    match o {
        Some(s) => Some(s.clone()),
        None => None,
    }
}

/// Parse the words `true` and `false`; anything else is rejected.
fn parse_bool(value: &str) -> (r: Result<bool, TpmgrError>)
    ensures
        value@ == "true"@ ==> (r matches Ok(b) && b == true),
        value@ == "false"@ ==> (r matches Ok(b) && b == false),
        value@ != "true"@ && value@ != "false"@ ==> (r matches Err(e) && e matches
            TpmgrError::InvalidFormat { message }),
{
    proof {
        reveal_strlit("true");
        reveal_strlit("false");
        assert(("true"@).len() == 4);
        assert(("false"@).len() == 5);
        assert("true"@ != "false"@);
    }
    if str_eq(value, "true") {
        Ok(true)
    } else if str_eq(value, "false") {
        Ok(false)
    } else {
        Err(TpmgrError::InvalidFormat { message: String::from_str("Invalid boolean value") })
    }
}

/// The machine-wide settings: where TeXLive lives, which mirror to use,
/// how to compile, and whether to install globally.
#[derive(Debug, Clone)]
pub struct GlobalConfig {
    pub texlive_path: Option<String>,
    pub mirror_url: Option<String>,
    pub compile_command: CompileCommand,
    pub install_global: bool,
}

/// Mathematical model of the global settings.
pub struct GlobalConfigModel {
    pub texlive_path: Option<Seq<char>>,
    pub mirror_url: Option<Seq<char>>,
    pub compile_command: CompileCommandModel,
    pub install_global: bool,
}

impl View for GlobalConfig {
    type V = GlobalConfigModel;

    open spec fn view(&self) -> GlobalConfigModel {
        GlobalConfigModel {
            texlive_path: opt_view(self.texlive_path),
            mirror_url: opt_view(self.mirror_url),
            compile_command: self.compile_command@,
            install_global: self.install_global,
        }
    }
}

impl GlobalConfig {
    /// Fresh settings: nothing configured, the default compile chain, local
    /// installation.
    pub fn new() -> (r: GlobalConfig)
        ensures
            r@.texlive_path is None,
            r@.mirror_url is None,
            r@.install_global == false,
            r@.compile_command.steps.len() == 1,
            r@.compile_command.steps[0].tool == "pdflatex"@,
            r@.compile_command.steps[0].args == seq![
                "-interaction=nonstopmode"@,
                "${PROJECT_ROOT}/main.tex"@,
            ],
            r@.compile_command.auto_clean == false,
            r@.compile_command.clean_patterns == default_clean_patterns_spec(),
    {
        GlobalConfig {
            texlive_path: None,
            mirror_url: None,
            compile_command: CompileCommand::new(),
            install_global: false,
        }
    }

    /// Set one key. Path-like keys treat a blank value as unset; the
    /// compile command is parsed as a chain; the install flag must be
    /// `true` or `false`; unknown keys are rejected and change nothing.
    pub fn set(&mut self, key: &str, value: &str) -> (r: Result<(), TpmgrError>)
        ensures
            key@ == "texlive_path"@ ==> r is Ok && final(self)@ == (GlobalConfigModel {
                texlive_path: if spec_trim(value@).len() == 0 {
                    None
                } else {
                    Some(value@)
                },
                ..old(self)@
            }),
            key@ == "mirror_url"@ ==> r is Ok && final(self)@ == (GlobalConfigModel {
                mirror_url: if spec_trim(value@).len() == 0 {
                    None
                } else {
                    Some(value@)
                },
                ..old(self)@
            }),
            key@ == "compile_command"@ && spec_steps_from(value@).len() == 0 ==> r is Err && final(self)@ == old(self)@,
            key@ == "compile_command"@ && spec_steps_from(value@).len() > 0 ==> r is Ok && final(self)@ == (GlobalConfigModel {
                compile_command: CompileCommandModel {
                    steps: spec_steps_from(value@),
                    auto_clean: false,
                    clean_patterns: default_clean_patterns_spec(),
                },
                ..old(self)@
            }),
            key@ == "install_global"@ && (value@ == "true"@ || value@ == "false"@) ==> r is Ok
                && final(self)@ == (GlobalConfigModel {
                install_global: value@ == "true"@,
                ..old(self)@
            }),
            key@ == "install_global"@ && value@ != "true"@ && value@ != "false"@ ==> r is Err
                && final(self)@ == old(self)@,
            key@ != "texlive_path"@ && key@ != "mirror_url"@ && key@ != "compile_command"@ && key@
                != "install_global"@ ==> r is Err && final(self)@ == old(self)@,
    {
    proof {
        reveal_strlit("texlive_path");
        reveal_strlit("mirror_url");
        reveal_strlit("compile_command");
        reveal_strlit("install_global");
        assert(("texlive_path"@).len() == 12);
        assert(("mirror_url"@).len() == 10);
        assert(("compile_command"@).len() == 15);
        assert(("install_global"@).len() == 14);
    }
        if str_eq(key, "texlive_path") {
            let t = trim(value);
            if t.unicode_len() == 0 {
                self.texlive_path = None;
            } else {
                self.texlive_path = Some(crate::text::str_copy(value));
            }
            Ok(())
        } else if str_eq(key, "mirror_url") {
            let t = trim(value);
            if t.unicode_len() == 0 {
                self.mirror_url = None;
            } else {
                self.mirror_url = Some(crate::text::str_copy(value));
            }
            Ok(())
        } else if str_eq(key, "compile_command") {
            match CompileCommand::from_string(value) {
                Ok(c) => {
                    self.compile_command = c;
                    Ok(())
                },
                Err(e) => Err(e),
            }
        } else if str_eq(key, "install_global") {
            match parse_bool(value) {
                Ok(b) => {
                    self.install_global = b;
                    Ok(())
                },
                Err(e) => Err(e),
            }
        } else {
            Err(
                TpmgrError::InvalidFormat {
                    message: String::from_str("Unknown config key: ").concat(key),
                },
            )
        }
    }

    /// Read one key; the compile command and the install flag are rendered
    /// as strings, unknown keys yield nothing.
    pub fn get(&self, key: &str) -> (r: Option<String>)
        ensures
            key@ == "texlive_path"@ ==> opt_str_matches(r, self@.texlive_path),
            key@ == "mirror_url"@ ==> opt_str_matches(r, self@.mirror_url),
            key@ == "compile_command"@ ==> (r matches Some(s) && s@ == command_string(
                self@.compile_command.steps,
            )),
            key@ == "install_global"@ ==> (r matches Some(s) && s@ == (if self@.install_global {
                "true"@
            } else {
                "false"@
            })),
            key@ != "texlive_path"@ && key@ != "mirror_url"@ && key@ != "compile_command"@ && key@
                != "install_global"@ ==> r is None,
    {
    proof {
        reveal_strlit("texlive_path");
        reveal_strlit("mirror_url");
        reveal_strlit("compile_command");
        reveal_strlit("install_global");
        assert(("texlive_path"@).len() == 12);
        assert(("mirror_url"@).len() == 10);
        assert(("compile_command"@).len() == 15);
        assert(("install_global"@).len() == 14);
    }
        if str_eq(key, "texlive_path") {
            opt_clone(&self.texlive_path)
        } else if str_eq(key, "mirror_url") {
            opt_clone(&self.mirror_url)
        } else if str_eq(key, "compile_command") {
            Some(self.compile_command.to_string())
        } else if str_eq(key, "install_global") {
            if self.install_global {
                Some(String::from_str("true"))
            } else {
                Some(String::from_str("false"))
            }
        } else {
            None
        }
    }

    /// The keys the global settings accept.
    pub fn list_keys() -> (r: Vec<&'static str>)
        ensures
            r@.len() == 4,
            r@[0]@ == "texlive_path"@,
            r@[1]@ == "mirror_url"@,
            r@[2]@ == "compile_command"@,
            r@[3]@ == "install_global"@,
    {
        let mut v: Vec<&'static str> = Vec::new();
        v.push("texlive_path");
        v.push("mirror_url");
        v.push("compile_command");
        v.push("install_global");
        v
    }
}

} // verus!

verus! {

/// Per-project settings stored next to the sources.
#[derive(Debug, Clone)]
pub struct ProjectConfig {
    pub name: String,
    pub version: String,
    pub compile: CompileCommand,
    pub package_dir: String,
    pub texlive_path: Option<String>,
    pub mirror_url: Option<String>,
    pub install_global: Option<bool>,
}

/// Mathematical model of the per-project settings.
pub struct ProjectConfigModel {
    pub name: Seq<char>,
    pub version: Seq<char>,
    pub compile: CompileCommandModel,
    pub package_dir: Seq<char>,
    pub texlive_path: Option<Seq<char>>,
    pub mirror_url: Option<Seq<char>>,
    pub install_global: Option<bool>,
}

impl View for ProjectConfig {
    type V = ProjectConfigModel;

    open spec fn view(&self) -> ProjectConfigModel {
        ProjectConfigModel {
            name: self.name@,
            version: self.version@,
            compile: self.compile@,
            package_dir: self.package_dir@,
            texlive_path: opt_view(self.texlive_path),
            mirror_url: opt_view(self.mirror_url),
            install_global: self.install_global,
        }
    }
}

/// One package repository a project may fetch from.
#[derive(Debug, Clone)]
pub struct Repository {
    pub name: String,
    pub url: String,
    pub priority: u8,
}

/// Mathematical model of a repository entry.
pub struct RepositoryModel {
    pub name: Seq<char>,
    pub url: Seq<char>,
    pub priority: u8,
}

impl View for Repository {
    type V = RepositoryModel;

    open spec fn view(&self) -> RepositoryModel {
        RepositoryModel { name: self.name@, url: self.url@, priority: self.priority }
    }
}

/// A project configuration: the project settings, its declared
/// dependencies as name/version pairs with unique names, and its
/// repositories.
#[derive(Debug, Clone)]
pub struct Config {
    pub project: ProjectConfig,
    pub dependencies: Vec<(String, String)>,
    pub repositories: Vec<Repository>,
}

impl Config {
    /// The declared dependencies carry pairwise distinct names.
    pub open spec fn deps_wf(&self) -> bool {
        forall|i: int, j: int|
            0 <= i < j < self.dependencies@.len() ==> (#[trigger] crate::resolver::pair_views(
                self.dependencies@,
            )[i]).0 != (#[trigger] crate::resolver::pair_views(self.dependencies@)[j]).0
    }

    /// A fresh project configuration with the default compile chain, no
    /// dependencies, and the standard repositories.
    pub fn new() -> (r: Config)
        ensures
            r.project@.name == "latex-project"@,
            r.project@.version == "0.1.0"@,
            r.project@.package_dir == "packages"@,
            r.project@.texlive_path is None,
            r.project@.mirror_url is None,
            r.project@.install_global is None,
            r.project@.compile.steps.len() == 1,
            r.project@.compile.steps[0].tool == "pdflatex"@,
            r.dependencies@.len() == 0,
            r.deps_wf(),
            r.repositories@.len() == 2,
            r.repositories@[0]@.name == "ctan"@,
            r.repositories@[0]@.url == "https://ctan.org/"@,
            r.repositories@[0]@.priority == 1,
            r.repositories@[1]@.name == "texlive"@,
            r.repositories@[1]@.url == "https://mirror.ctan.org/systems/texlive/tlnet/"@,
            r.repositories@[1]@.priority == 2,
    {
        let mut repositories: Vec<Repository> = Vec::new();
        repositories.push(
            Repository {
                name: String::from_str("ctan"),
                url: String::from_str("https://ctan.org/"),
                priority: 1,
            },
        );
        repositories.push(
            Repository {
                name: String::from_str("texlive"),
                url: String::from_str("https://mirror.ctan.org/systems/texlive/tlnet/"),
                priority: 2,
            },
        );
        Config {
            project: ProjectConfig {
                name: String::from_str("latex-project"),
                version: String::from_str("0.1.0"),
                compile: CompileCommand::new(),
                package_dir: String::from_str("packages"),
                texlive_path: None,
                mirror_url: None,
                install_global: None,
            },
            dependencies: Vec::new(),
            repositories,
        }
    }

    /// Record a dependency: a name already declared gets the new version,
    /// a new name is appended.
    pub fn add_dependency(&mut self, name: String, version: String)
        requires
            old(self).deps_wf(),
        ensures
            final(self).deps_wf(),
            final(self).project == old(self).project,
            final(self).repositories == old(self).repositories,
            crate::resolver::assoc_lookup(
                crate::resolver::pair_views(final(self).dependencies@),
                name@,
            ) == Some(version@),
            forall|n: Seq<char>|
                n != name@ ==> crate::resolver::assoc_lookup(
                    crate::resolver::pair_views(final(self).dependencies@),
                    n,
                ) == crate::resolver::assoc_lookup(
                    crate::resolver::pair_views(old(self).dependencies@),
                    n,
                ),
    {
        let ghost d0 = crate::resolver::pair_views(self.dependencies@);
        let n: usize = self.dependencies.len();
        let mut i: usize = 0;
        while i < n
            invariant
                i <= n,
                n == self.dependencies@.len(),
                d0 == crate::resolver::pair_views(self.dependencies@),
                self.project == old(self).project,
                self.repositories == old(self).repositories,
                self.dependencies@ == old(self).dependencies@,
                forall|k: int| 0 <= k < i ==> (#[trigger] d0[k]).0 != name@,
            decreases n - i,
        {
            if str_eq(self.dependencies[i].0.as_str(), name.as_str()) {
                let ghost nv = name@;
                let ghost vv = version@;
                self.dependencies.set(i, (name, version));
                proof {
                    let d1 = crate::resolver::pair_views(self.dependencies@);
                    assert(d1 =~= d0.update(i as int, (nv, vv)));
                    assert(d1[i as int].0 == nv);
                    assert forall|k: int| 0 <= k < d1.len() && k != i implies #[trigger] d1[k]
                        == d0[k] by {}
                    crate::resolver::lemma_assoc_first(d1, nv, i as int);
                    assert forall|n2: Seq<char>|
                        n2 != nv implies crate::resolver::assoc_lookup(d1, n2)
                        == crate::resolver::assoc_lookup(d0, n2) by {
                        lemma_assoc_update(d0, d1, i as int, n2);
                    }
                    assert forall|a: int, b: int|
                        0 <= a < b < d1.len() implies (#[trigger] d1[a]).0 != (
                    #[trigger] d1[b]).0 by {
                        assert(d1[a].0 == d0[a].0 && d1[b].0 == d0[b].0);
                    }
                }
                return ;
            }
            proof {
                assert(d0[i as int].0 == self.dependencies@[i as int].0@);
            }
            i += 1;
        }
        let ghost nv = name@;
        let ghost vv = version@;
        self.dependencies.push((name, version));
        proof {
            let d1 = crate::resolver::pair_views(self.dependencies@);
            assert(d1 =~= d0.push((nv, vv)));
            crate::resolver::lemma_assoc_first(d1, nv, d0.len() as int);
            assert forall|n2: Seq<char>|
                n2 != nv implies crate::resolver::assoc_lookup(d1, n2)
                == crate::resolver::assoc_lookup(d0, n2) by {
                lemma_assoc_push(d0, (nv, vv), n2);
            }
            assert forall|a: int, b: int|
                0 <= a < b < d1.len() implies (#[trigger] d1[a]).0 != (#[trigger] d1[b]).0 by {
                if b == d1.len() - 1 {
                    assert(d1[a] == d0[a]);
                    assert(d1[b].0 == nv);
                } else {
                    assert(d1[a] == d0[a] && d1[b] == d0[b]);
                }
            }
        }
    }

    /// Forget a dependency; the version it had is returned, nothing when
    /// the name was not declared.
    pub fn remove_dependency(&mut self, name: &str) -> (r: Option<String>)
        requires
            old(self).deps_wf(),
        ensures
            final(self).deps_wf(),
            final(self).project == old(self).project,
            final(self).repositories == old(self).repositories,
            crate::resolver::assoc_lookup(
                crate::resolver::pair_views(final(self).dependencies@),
                name@,
            ) is None,
            forall|n: Seq<char>|
                n != name@ ==> crate::resolver::assoc_lookup(
                    crate::resolver::pair_views(final(self).dependencies@),
                    n,
                ) == crate::resolver::assoc_lookup(
                    crate::resolver::pair_views(old(self).dependencies@),
                    n,
                ),
            opt_str_matches(
                r,
                match crate::resolver::assoc_lookup(
                    crate::resolver::pair_views(old(self).dependencies@),
                    name@,
                ) {
                    Some(v) => Some(v),
                    None => None,
                },
            ),
    {
        let ghost d0 = crate::resolver::pair_views(self.dependencies@);
        let n: usize = self.dependencies.len();
        let mut i: usize = 0;
        while i < n
            invariant
                i <= n,
                n == self.dependencies@.len(),
                d0 == crate::resolver::pair_views(self.dependencies@),
                self.project == old(self).project,
                self.repositories == old(self).repositories,
                self.dependencies@ == old(self).dependencies@,
                forall|k: int| 0 <= k < i ==> (#[trigger] d0[k]).0 != name@,
            decreases n - i,
        {
            if str_eq(self.dependencies[i].0.as_str(), name) {
                proof {
                    crate::resolver::lemma_assoc_first(d0, name@, i as int);
                }
                let pair = self.dependencies.remove(i);
                proof {
                    let d1 = crate::resolver::pair_views(self.dependencies@);
                    assert(d1 =~= d0.remove(i as int));
                    assert forall|k: int| 0 <= k < d1.len() implies (#[trigger] d1[k]).0
                        != name@ by {
                        if k < i {
                            assert(d1[k] == d0[k]);
                        } else {
                            assert(d1[k] == d0[k + 1]);
                            assert(d0[i as int].0 == name@);
                        }
                    }
                    crate::resolver::lemma_assoc_none(d1, name@);
                    assert forall|n2: Seq<char>|
                        n2 != name@ implies crate::resolver::assoc_lookup(d1, n2)
                        == crate::resolver::assoc_lookup(d0, n2) by {
                        lemma_assoc_remove(d0, i as int, n2);
                    }
                    assert forall|a: int, b: int|
                        0 <= a < b < d1.len() implies (#[trigger] d1[a]).0 != (
                    #[trigger] d1[b]).0 by {
                        if b < i {
                            assert(d1[a] == d0[a] && d1[b] == d0[b]);
                        } else if a < i {
                            assert(d1[a] == d0[a] && d1[b] == d0[b + 1]);
                        } else {
                            assert(d1[a] == d0[a + 1] && d1[b] == d0[b + 1]);
                        }
                    }
                    assert(pair.1@ == d0[i as int].1);
                }
                return Some(pair.1);
            }
            proof {
                assert(d0[i as int].0 == self.dependencies@[i as int].0@);
            }
            i += 1;
        }
        proof {
            crate::resolver::lemma_assoc_none(d0, name@);
        }
        None
    }

    /// The directory packages are installed into.
    pub fn get_package_dir(&self) -> (r: &str)
        ensures
            r@ == self.project@.package_dir,
    {
        self.project.package_dir.as_str()
    }

}

proof fn lemma_assoc_update(
    sn1: Seq<(Seq<char>, Seq<char>)>,
    sn2: Seq<(Seq<char>, Seq<char>)>,
    i: int,
    n: Seq<char>,
)
    requires
        sn1.len() == sn2.len(),
        0 <= i < sn1.len(),
        forall|k: int| 0 <= k < sn1.len() && k != i ==> #[trigger] sn2[k] == sn1[k],
        sn2[i].0 == sn1[i].0,
        n != sn1[i].0,
    ensures
        crate::resolver::assoc_lookup(sn2, n) == crate::resolver::assoc_lookup(sn1, n),
    decreases sn1.len(),
{
    if sn1.len() > 0 {
        if sn1[0].0 == n {
            assert(sn2[0] == sn1[0]);
        } else if i == 0 {
            assert(sn1.drop_first() =~= sn2.drop_first());
        } else {
            assert(sn2[0] == sn1[0]);
            assert forall|k: int|
                0 <= k < sn1.drop_first().len() && k != i - 1 implies #[trigger] sn2.drop_first()[k]
                == sn1.drop_first()[k] by {
                assert(sn2[k + 1] == sn1[k + 1]);
            }
            lemma_assoc_update(sn1.drop_first(), sn2.drop_first(), i - 1, n);
        }
    }
}

proof fn lemma_assoc_push(sn: Seq<(Seq<char>, Seq<char>)>, pair: (Seq<char>, Seq<char>), n: Seq<char>)
    requires
        n != pair.0,
    ensures
        crate::resolver::assoc_lookup(sn.push(pair), n) == crate::resolver::assoc_lookup(sn, n),
    decreases sn.len(),
{
    let p = sn.push(pair);
    if sn.len() == 0 {
        assert(p[0] == pair);
        assert(p.drop_first() =~= Seq::<(Seq<char>, Seq<char>)>::empty());
    } else {
        assert(p[0] == sn[0]);
        if sn[0].0 != n {
            assert(p.drop_first() =~= sn.drop_first().push(pair));
            lemma_assoc_push(sn.drop_first(), pair, n);
        }
    }
}

proof fn lemma_assoc_remove(sn: Seq<(Seq<char>, Seq<char>)>, i: int, n: Seq<char>)
    requires
        0 <= i < sn.len(),
        n != sn[i].0,
    ensures
        crate::resolver::assoc_lookup(sn.remove(i), n) == crate::resolver::assoc_lookup(sn, n),
    decreases sn.len(),
{
    let p = sn.remove(i);
    if i == 0 {
        assert(p =~= sn.drop_first());
    } else {
        assert(p[0] == sn[0]);
        if sn[0].0 != n {
            assert(p.drop_first() =~= sn.drop_first().remove(i - 1));
            lemma_assoc_remove(sn.drop_first(), i - 1, n);
        }
    }
}

} // verus!

verus! {

impl Config {
    /// Set one project key; unknown keys are rejected and change nothing.
    pub fn set_project_config(&mut self, key: &str, value: &str) -> (r: Result<(), TpmgrError>)
        ensures
            final(self).dependencies == old(self).dependencies,
            final(self).repositories == old(self).repositories,
            key@ == "name"@ ==> r is Ok && final(self).project@ == (ProjectConfigModel {
                name: value@,
                ..old(self).project@
            }),
            key@ == "version"@ ==> r is Ok && final(self).project@ == (ProjectConfigModel {
                version: value@,
                ..old(self).project@
            }),
            key@ == "compile"@ && spec_steps_from(value@).len() == 0 ==> r is Err && final(self).project@ == old(self).project@,
            key@ == "compile"@ && spec_steps_from(value@).len() > 0 ==> r is Ok && final(self).project@ == (ProjectConfigModel {
                compile: CompileCommandModel {
                    steps: spec_steps_from(value@),
                    auto_clean: false,
                    clean_patterns: default_clean_patterns_spec(),
                },
                ..old(self).project@
            }),
            key@ == "package_dir"@ ==> r is Ok && final(self).project@ == (ProjectConfigModel {
                package_dir: value@,
                ..old(self).project@
            }),
            key@ == "texlive_path"@ ==> r is Ok && final(self).project@ == (ProjectConfigModel {
                texlive_path: if spec_trim(value@).len() == 0 {
                    None
                } else {
                    Some(value@)
                },
                ..old(self).project@
            }),
            key@ == "mirror_url"@ ==> r is Ok && final(self).project@ == (ProjectConfigModel {
                mirror_url: if spec_trim(value@).len() == 0 {
                    None
                } else {
                    Some(value@)
                },
                ..old(self).project@
            }),
            key@ == "install_global"@ && spec_trim(value@).len() == 0 ==> r is Ok && final(self).project@ == (ProjectConfigModel { install_global: None, ..old(self).project@ }),
            key@ == "install_global"@ && spec_trim(value@).len() > 0 && (value@ == "true"@ || value@
                == "false"@) ==> r is Ok && final(self).project@ == (ProjectConfigModel {
                install_global: Some(value@ == "true"@),
                ..old(self).project@
            }),
            key@ == "install_global"@ && spec_trim(value@).len() > 0 && value@ != "true"@ && value@
                != "false"@ ==> r is Err && final(self).project@ == old(self).project@,
            key@ != "name"@ && key@ != "version"@ && key@ != "compile"@ && key@ != "package_dir"@
                && key@ != "texlive_path"@ && key@ != "mirror_url"@ && key@ != "install_global"@
                ==> r is Err && final(self).project@ == old(self).project@,
    {
        proof {
            reveal_strlit("name");
            reveal_strlit("version");
            reveal_strlit("compile");
            reveal_strlit("package_dir");
            reveal_strlit("texlive_path");
            reveal_strlit("mirror_url");
            reveal_strlit("install_global");
            assert(("name"@).len() == 4);
            assert(("version"@).len() == 7);
            assert(("compile"@).len() == 7);
            assert(("package_dir"@).len() == 11);
            assert(("texlive_path"@).len() == 12);
            assert(("mirror_url"@).len() == 10);
            assert(("install_global"@).len() == 14);
            assert(("version"@)[0] == 'v');
            assert(("compile"@)[0] == 'c');
            assert("version"@ != "compile"@);
        }
        if str_eq(key, "name") {
            self.project.name = crate::text::str_copy(value);
            Ok(())
        } else if str_eq(key, "version") {
            self.project.version = crate::text::str_copy(value);
            Ok(())
        } else if str_eq(key, "compile") {
            match CompileCommand::from_string(value) {
                Ok(c) => {
                    self.project.compile = c;
                    Ok(())
                },
                Err(e) => Err(e),
            }
        } else if str_eq(key, "package_dir") {
            self.project.package_dir = crate::text::str_copy(value);
            Ok(())
        } else if str_eq(key, "texlive_path") {
            let t = trim(value);
            if t.unicode_len() == 0 {
                self.project.texlive_path = None;
            } else {
                self.project.texlive_path = Some(crate::text::str_copy(value));
            }
            Ok(())
        } else if str_eq(key, "mirror_url") {
            let t = trim(value);
            if t.unicode_len() == 0 {
                self.project.mirror_url = None;
            } else {
                self.project.mirror_url = Some(crate::text::str_copy(value));
            }
            Ok(())
        } else if str_eq(key, "install_global") {
            let t = trim(value);
            if t.unicode_len() == 0 {
                self.project.install_global = None;
                Ok(())
            } else {
                match parse_bool(value) {
                    Ok(b) => {
                        self.project.install_global = Some(b);
                        Ok(())
                    },
                    Err(e) => Err(e),
                }
            }
        } else {
            Err(
                TpmgrError::InvalidFormat {
                    message: String::from_str("Unknown project config key: ").concat(key),
                },
            )
        }
    }

    /// Read one project key; the compile chain and the install flag are
    /// rendered as strings, unknown keys yield nothing.
    pub fn get_project_config(&self, key: &str) -> (r: Option<String>)
        ensures
            key@ == "name"@ ==> (r matches Some(s) && s@ == self.project@.name),
            key@ == "version"@ ==> (r matches Some(s) && s@ == self.project@.version),
            key@ == "compile"@ ==> (r matches Some(s) && s@ == command_string(
                self.project@.compile.steps,
            )),
            key@ == "package_dir"@ ==> (r matches Some(s) && s@ == self.project@.package_dir),
            key@ == "texlive_path"@ ==> opt_str_matches(r, self.project@.texlive_path),
            key@ == "mirror_url"@ ==> opt_str_matches(r, self.project@.mirror_url),
            key@ == "install_global"@ ==> (match self.project@.install_global {
                Some(b) => r matches Some(s) && s@ == (if b {
                    "true"@
                } else {
                    "false"@
                }),
                None => r is None,
            }),
            key@ != "name"@ && key@ != "version"@ && key@ != "compile"@ && key@ != "package_dir"@
                && key@ != "texlive_path"@ && key@ != "mirror_url"@ && key@ != "install_global"@
                ==> r is None,
    {
        proof {
            reveal_strlit("name");
            reveal_strlit("version");
            reveal_strlit("compile");
            reveal_strlit("package_dir");
            reveal_strlit("texlive_path");
            reveal_strlit("mirror_url");
            reveal_strlit("install_global");
            assert(("name"@).len() == 4);
            assert(("version"@).len() == 7);
            assert(("compile"@).len() == 7);
            assert(("package_dir"@).len() == 11);
            assert(("texlive_path"@).len() == 12);
            assert(("mirror_url"@).len() == 10);
            assert(("install_global"@).len() == 14);
            assert(("version"@)[0] == 'v');
            assert(("compile"@)[0] == 'c');
            assert("version"@ != "compile"@);
        }
        if str_eq(key, "name") {
            Some(self.project.name.clone())
        } else if str_eq(key, "version") {
            Some(self.project.version.clone())
        } else if str_eq(key, "compile") {
            Some(self.project.compile.to_string())
        } else if str_eq(key, "package_dir") {
            Some(self.project.package_dir.clone())
        } else if str_eq(key, "texlive_path") {
            opt_clone(&self.project.texlive_path)
        } else if str_eq(key, "mirror_url") {
            opt_clone(&self.project.mirror_url)
        } else if str_eq(key, "install_global") {
            match self.project.install_global {
                Some(b) => {
                    if b {
                        Some(String::from_str("true"))
                    } else {
                        Some(String::from_str("false"))
                    }
                },
                None => None,
            }
        } else {
            None
        }
    }

    /// The keys the project settings accept.
    pub fn list_project_keys() -> (r: Vec<&'static str>)
        ensures
            r@.len() == 7,
            r@[0]@ == "name"@,
            r@[1]@ == "version"@,
            r@[2]@ == "compile"@,
            r@[3]@ == "package_dir"@,
            r@[4]@ == "texlive_path"@,
            r@[5]@ == "mirror_url"@,
            r@[6]@ == "install_global"@,
    {
        let mut v: Vec<&'static str> = Vec::new();
        v.push("name");
        v.push("version");
        v.push("compile");
        v.push("package_dir");
        v.push("texlive_path");
        v.push("mirror_url");
        v.push("install_global");
        v
    }
}

} // verus!
