//! The model of a TeXLive installation: its directories, the packages it
//! has installed, and the parser for its package-database text.
use vstd::prelude::*;
use vstd::string::StrSliceExecFns;
use vstd::string::StringExecFns;

use crate::error::TpmgrError;
use crate::text::{spec_lines, spec_trim, str_eq, views_of};

verus! {

/// Where a TeXLive installation keeps its trees; paths are plain strings.
#[derive(Debug, Clone)]
pub struct TeXLiveInfo {
    pub version: String,
    pub install_path: String,
    pub texmf_dist: String,
    pub texmf_local: String,
    pub texmf_home: String,
}

/// Mathematical model of the installation record.
pub struct TeXLiveInfoModel {
    pub version: Seq<char>,
    pub install_path: Seq<char>,
    pub texmf_dist: Seq<char>,
    pub texmf_local: Seq<char>,
    pub texmf_home: Seq<char>,
}

impl View for TeXLiveInfo {
    type V = TeXLiveInfoModel;

    open spec fn view(&self) -> TeXLiveInfoModel {
        TeXLiveInfoModel {
            version: self.version@,
            install_path: self.install_path@,
            texmf_dist: self.texmf_dist@,
            texmf_local: self.texmf_local@,
            texmf_home: self.texmf_home@,
        }
    }
}

/// One package the installation provides.
#[derive(Debug, Clone)]
pub struct InstalledPackage {
    pub name: String,
    pub version: String,
    pub description: String,
    pub files: Vec<String>,
    pub install_path: String,
}

/// Mathematical model of an installed package.
pub struct InstalledPackageModel {
    pub name: Seq<char>,
    pub version: Seq<char>,
    pub description: Seq<char>,
    pub files: Seq<Seq<char>>,
    pub install_path: Seq<char>,
}

impl View for InstalledPackage {
    type V = InstalledPackageModel;

    open spec fn view(&self) -> InstalledPackageModel {
        InstalledPackageModel {
            name: self.name@,
            version: self.version@,
            description: self.description@,
            files: views_of(self.files@),
            install_path: self.install_path@,
        }
    }
}

/// The models of a list of installed packages.
pub open spec fn pkg_models(v: Seq<InstalledPackage>) -> Seq<InstalledPackageModel> {
    v.map_values(|p: InstalledPackage| p@)
}

/// Some entry carries the name `n`.
pub open spec fn pkg_name_in(ps: Seq<InstalledPackageModel>, n: Seq<char>) -> bool {
    exists|i: int| 0 <= i < ps.len() && (#[trigger] ps[i]).name == n
}

/// `ps` with `p` stored under its name: the first entry of that name is
/// replaced, a new name is appended.
pub open spec fn insert_pkg(ps: Seq<InstalledPackageModel>, p: InstalledPackageModel) -> Seq<
    InstalledPackageModel,
>
    decreases ps.len(),
{
    if ps.len() == 0 {
        seq![p]
    } else if ps[0].name == p.name {
        seq![p] + ps.drop_first()
    } else {
        seq![ps[0]] + insert_pkg(ps.drop_first(), p)
    }
}

/// A relative path joined under `base` with a slash; an absolute path
/// stands alone.
pub open spec fn join_path(base: Seq<char>, p: Seq<char>) -> Seq<char> {
    if p.len() > 0 && p[0] == '/' {
        p
    } else {
        base + "/"@ + p
    }
}

/// Whether a directory name reads as a TeXLive year: an optional plus
/// sign, then digits, naming a year between 2015 and 2030.
pub open spec fn is_digit_char(c: char) -> bool {
    '0' <= c && c <= '9'
}

/// The numeric value of a digit string.
pub open spec fn digits_value(s: Seq<char>) -> int
    decreases s.len(),
{
    if s.len() == 0 {
        0
    } else {
        digits_value(s.drop_last()) * 10 + (s.last() as int - '0' as int)
    }
}

/// The digits of a year name, one leading plus sign allowed.
pub open spec fn year_body(s: Seq<char>) -> Seq<char> {
    if s.len() > 0 && s[0] == '+' {
        s.drop_first()
    } else {
        s
    }
}

/// The year-directory predicate.
pub open spec fn is_year_dir_spec(s: Seq<char>) -> bool {
    &&& year_body(s).len() > 0
    &&& (forall|k: int| 0 <= k < year_body(s).len() ==> is_digit_char(#[trigger] year_body(s)[k]))
    &&& 2015 <= digits_value(year_body(s)) <= 2030
}

/// Detects and describes a local TeXLive installation and what it has
/// installed. Discovery itself runs outside; this type holds what was
/// found and answers queries over it.
pub struct TeXLiveManager {
    pub texlive_info: Option<TeXLiveInfo>,
    pub installed_packages: Vec<InstalledPackage>,
}

impl TeXLiveManager {
    /// A manager that has detected nothing yet.
    pub fn new() -> (r: TeXLiveManager)
        ensures
            r.texlive_info is None,
            r.installed_packages@.len() == 0,
    {
        TeXLiveManager { texlive_info: None, installed_packages: Vec::new() }
    }

    /// Whether a package of this name is installed.
    pub fn is_package_installed(&self, package_name: &str) -> (r: bool)
        ensures
            r == pkg_name_in(pkg_models(self.installed_packages@), package_name@),
    {
        let n: usize = self.installed_packages.len();
        let mut i: usize = 0;
        while i < n
            invariant
                i <= n,
                n == self.installed_packages@.len(),
                forall|k: int|
                    0 <= k < i ==> (#[trigger] pkg_models(self.installed_packages@)[k]).name
                        != package_name@,
            decreases n - i,
        {
            if str_eq(self.installed_packages[i].name.as_str(), package_name) {
                proof {
                    assert(pkg_models(self.installed_packages@)[i as int].name == package_name@);
                }
                return true;
            }
            proof {
                assert(pkg_models(self.installed_packages@)[i as int].name
                    == self.installed_packages@[i as int].name@);
            }
            i += 1;
        }
        false
    }

    /// The first installed package of this name, if any.
    pub fn get_installed_package(&self, package_name: &str) -> (r: Option<&InstalledPackage>)
        ensures
            match r {
                Some(p) => p@.name == package_name@ && pkg_name_in(
                    pkg_models(self.installed_packages@),
                    package_name@,
                ),
                None => !pkg_name_in(pkg_models(self.installed_packages@), package_name@),
            },
    {
        let n: usize = self.installed_packages.len();
        let mut i: usize = 0;
        while i < n
            invariant
                i <= n,
                n == self.installed_packages@.len(),
                forall|k: int|
                    0 <= k < i ==> (#[trigger] pkg_models(self.installed_packages@)[k]).name
                        != package_name@,
            decreases n - i,
        {
            if str_eq(self.installed_packages[i].name.as_str(), package_name) {
                proof {
                    assert(pkg_models(self.installed_packages@)[i as int].name == package_name@);
                }
                return Some(&self.installed_packages[i]);
            }
            proof {
                assert(pkg_models(self.installed_packages@)[i as int].name
                    == self.installed_packages@[i as int].name@);
            }
            i += 1;
        }
        None
    }

    /// All installed packages, in storage order.
    pub fn list_installed_packages(&self) -> (r: Vec<&InstalledPackage>)
        ensures
            r@.len() == self.installed_packages@.len(),
            forall|i: int|
                0 <= i < r@.len() ==> (#[trigger] r@[i])@ == pkg_models(
                    self.installed_packages@,
                )[i],
    {
        let n: usize = self.installed_packages.len();
        let mut out: Vec<&InstalledPackage> = Vec::new();
        let mut i: usize = 0;
        while i < n
            invariant
                i <= n,
                n == self.installed_packages@.len(),
                out@.len() == i,
                forall|k: int|
                    0 <= k < i ==> (#[trigger] out@[k])@ == pkg_models(
                        self.installed_packages@,
                    )[k],
            decreases n - i,
        {
            out.push(&self.installed_packages[i]);
            i += 1;
        }
        out
    }

    /// The detected installation, if any.
    pub fn get_texlive_info(&self) -> (r: Option<&TeXLiveInfo>)
        ensures
            match r {
                Some(info) => self.texlive_info matches Some(fi) && fi == *info,
                None => self.texlive_info is None,
            },
    {
        self.texlive_info.as_ref()
    }

    /// Where packages are installed: the installation's local tree for a
    /// global install — which needs a detected installation — and the
    /// project's own directory otherwise.
    pub fn get_package_install_path(&self, global: bool) -> (r: Result<String, TpmgrError>)
        ensures
            global ==> (match self.texlive_info {
                Some(info) => r matches Ok(p) && p@ == info@.texmf_local,
                None => r is Err,
            }),
            !global ==> (r matches Ok(p) && p@ == "packages"@),
    {
        if global {
            match &self.texlive_info {
                Some(info) => Ok(info.texmf_local.clone()),
                None => Err(
                    TpmgrError::DependencyResolution {
                        message: String::from_str("TeXLive not detected"),
                    },
                ),
            }
        } else {
            Ok(String::from_str("packages"))
        }
    }

    /// Whether a directory name reads as a plausible TeXLive year.
    pub fn is_texlive_year_dir(name: &str) -> (r: bool)
        ensures
            r == is_year_dir_spec(name@),
    {
        let nl: usize = name.unicode_len();
        let mut start: usize = 0;
        if nl > 0 && name.get_char(0) == '+' {
            start = 1;
        }
        let ghost body = year_body(name@);
        if start >= nl {
            assert(body.len() == 0);
            return false;
        }
        let mut val: u32 = 0;
        let mut i: usize = start;
        proof {
            assert(body =~= name@.subrange(start as int, nl as int));
            assert(body.subrange(0, 0) =~= Seq::<char>::empty());
        }
        while i < nl
            invariant
                start <= i <= nl,
                nl == name@.len(),
                start <= 1,
                body == name@.subrange(start as int, nl as int),
                forall|k: int| 0 <= k < i - start ==> is_digit_char(#[trigger] body[k]),
                val <= 100000,
                digits_value(body.subrange(0, i - start)) <= 100000 ==> val == digits_value(
                    body.subrange(0, i - start),
                ),
                digits_value(body.subrange(0, i - start)) > 100000 ==> val == 100000,
                digits_value(body.subrange(0, i - start)) >= 0,
            decreases nl - i,
        {
            let c = name.get_char(i);
            if !('0' <= c && c <= '9') {
                proof {
                    assert(body[i - start] == name@[i as int]);
                    assert(0 <= i - start < body.len() && !is_digit_char(
                        year_body(name@)[i - start],
                    ));
                    assert(!is_year_dir_spec(name@));
                }
                return false;
            }
            let d: u32 = (c as u32) - ('0' as u32);
            proof {
                assert(body[i - start] == name@[i as int]);
                assert(body.subrange(0, i - start + 1).drop_last() =~= body.subrange(
                    0,
                    i - start,
                ));
                assert(body.subrange(0, i - start + 1).last() == body[i - start]);
                assert(d <= 9);
            }
            if val > 10000 || val * 10 + d > 100000 {
                val = 100000;
            } else {
                val = val * 10 + d;
            }
            i += 1;
        }
        proof {
            assert(body.subrange(0, nl - start) =~= body);
        }
        2015 <= val && val <= 2030
    }

    /// Store one package parsed from the database, under its name; the
    /// version is unknown there, the install path is the distribution
    /// tree. Needs a detected installation.
    pub fn add_package_from_tlpdb(&mut self, name: String, description: String, files: Vec<String>)
        requires
            old(self).texlive_info is Some,
        ensures
            final(self).texlive_info == old(self).texlive_info,
            pkg_models(final(self).installed_packages@) == insert_pkg(
                pkg_models(old(self).installed_packages@),
                InstalledPackageModel {
                    name: name@,
                    version: "unknown"@,
                    description: description@,
                    files: views_of(files@),
                    install_path: (match old(self).texlive_info {
                        Some(info) => info@.texmf_dist,
                        None => Seq::empty(),
                    }),
                },
            ),
    {
        let dist = match &self.texlive_info {
            Some(info) => info.texmf_dist.clone(),
            None => String::new(),
        };
        let pkg = InstalledPackage {
            name,
            version: String::from_str("unknown"),
            description,
            files,
            install_path: dist,
        };
        let ghost pm = pkg@;
        let ghost ps0 = pkg_models(self.installed_packages@);
        let n: usize = self.installed_packages.len();
        let mut i: usize = 0;
        while i < n
            invariant
                i <= n,
                n == self.installed_packages@.len(),
                ps0 == pkg_models(self.installed_packages@),
                self.texlive_info == old(self).texlive_info,
                forall|k: int| 0 <= k < i ==> (#[trigger] ps0[k]).name != pm.name,
            decreases n - i,
        {
            if str_eq(self.installed_packages[i].name.as_str(), pkg.name.as_str()) {
                proof {
                    assert(ps0[i as int].name == pm.name);
                }
                self.installed_packages.set(i, pkg);
                proof {
                    let ps1 = pkg_models(self.installed_packages@);
                    assert(ps1 =~= ps0.update(i as int, pm));
                    lemma_insert_pkg_at(ps0, pm, i as int);
                    assert(ps1 =~= insert_pkg(ps0, pm));
                }
                return ;
            }
            proof {
                assert(ps0[i as int].name == self.installed_packages@[i as int].name@);
            }
            i += 1;
        }
        self.installed_packages.push(pkg);
        proof {
            let ps1 = pkg_models(self.installed_packages@);
            assert(ps1 =~= ps0.push(pm));
            lemma_insert_pkg_absent(ps0, pm);
            assert(ps1 =~= insert_pkg(ps0, pm));
        }
    }
}

proof fn lemma_insert_pkg_at(ps: Seq<InstalledPackageModel>, p: InstalledPackageModel, i: int)
    requires
        0 <= i < ps.len(),
        ps[i].name == p.name,
        forall|k: int| 0 <= k < i ==> (#[trigger] ps[k]).name != p.name,
    ensures
        insert_pkg(ps, p) == ps.update(i, p),
    decreases i,
{
    if i == 0 {
        assert(insert_pkg(ps, p) == seq![p] + ps.drop_first());
        assert(seq![p] + ps.drop_first() =~= ps.update(0, p));
    } else {
        assert(ps[0].name != p.name);
        lemma_insert_pkg_at(ps.drop_first(), p, i - 1);
        assert(insert_pkg(ps, p) == seq![ps[0]] + insert_pkg(ps.drop_first(), p));
        assert(seq![ps[0]] + ps.drop_first().update(i - 1, p) =~= ps.update(i, p));
    }
}

proof fn lemma_insert_pkg_absent(ps: Seq<InstalledPackageModel>, p: InstalledPackageModel)
    requires
        forall|k: int| 0 <= k < ps.len() ==> (#[trigger] ps[k]).name != p.name,
    ensures
        insert_pkg(ps, p) == ps.push(p),
    decreases ps.len(),
{
    if ps.len() == 0 {
        assert(insert_pkg(ps, p) =~= ps.push(p));
    } else {
        assert(ps[0].name != p.name);
        lemma_insert_pkg_absent(ps.drop_first(), p);
        assert(insert_pkg(ps, p) == seq![ps[0]] + ps.drop_first().push(p));
        assert(seq![ps[0]] + ps.drop_first().push(p) =~= ps.push(p));
    }
}

} // verus!

verus! {

/// The version a compiler's banner names: the text between the first
/// `TeX Live ` and the next closing parenthesis.
pub open spec fn spec_banner_version(text: Seq<char>) -> Option<Seq<char>> {
    if crate::text::contains_seq(text, "TeX Live "@) {
        let p = choose|p: int| crate::text::first_match_from(text, "TeX Live "@, 0, p);
        let cs = p + 9;
        let q = crate::text::index_of_first(text, ')', cs);
        if q < text.len() {
            Some(text.subrange(cs, q))
        } else {
            None
        }
    } else {
        None
    }
}

/// Extract the TeXLive version from a compiler's version banner.
pub fn parse_tex_version_output(output: &str) -> (r: Option<String>)
    ensures
        match r {
            Some(v) => spec_banner_version(output@) == Some(v@),
            None => spec_banner_version(output@) is None,
        },
{
    match crate::text::find_from(output, "TeX Live ", 0) {
        Some(p) => {
            proof {
                let p2 = choose|p2: int|
                    crate::text::first_match_from(output@, "TeX Live "@, 0, p2);
                if p2 < p as int {
                    assert(!crate::text::has_at(output@, "TeX Live "@, p2));
                }
                if p2 > p as int {
                    assert(!crate::text::has_at(output@, "TeX Live "@, p as int));
                }
                assert(p2 == p as int);
            }
            let tl: usize = vstd::string::StrSliceExecFns::unicode_len(output);
            proof {
                assert(crate::text::has_at(output@, "TeX Live "@, p as int));
                assert(("TeX Live "@).len() == 9) by {
                    reveal_strlit("TeX Live ");
                }
                assert(p + 9 <= tl);
            }
            let cs: usize = p + 9;
            match crate::text::find_char_from(output, ')', cs) {
                Some(q) => Some(crate::text::substr(output, cs, q)),
                None => None,
            }
        },
        None => {
            proof {
                if crate::text::contains_seq(output@, "TeX Live "@) {
                    let w = choose|w: int| crate::text::has_at(output@, "TeX Live "@, w);
                    assert(!crate::text::has_at(output@, "TeX Live "@, w));
                }
            }
            None
        },
    }
}

/// What a database line names as the release: the text after its first
/// `release/`, up to the next space; nothing unless the line starts with
/// `depend release` and holds a `release/` mark.
pub open spec fn spec_release_of(line: Seq<char>) -> Option<Seq<char>> {
    if has_at_start(line, "depend release"@) && crate::text::contains_seq(line, "release/"@) {
        let vs = choose|vs: int| crate::text::first_match_from(line, "release/"@, 0, vs);
        let cs = vs + 8;
        let q = crate::text::index_of_first(line, ' ', cs);
        Some(line.subrange(cs, q))
    } else {
        None
    }
}

/// The pattern stands at the beginning of the line.
pub open spec fn has_at_start(line: Seq<char>, pat: Seq<char>) -> bool {
    crate::text::has_at(line, pat, 0)
}

/// The first release a database's lines name.
pub open spec fn spec_db_release(lines: Seq<Seq<char>>) -> Option<Seq<char>>
    decreases lines.len(),
{
    if lines.len() == 0 {
        None
    } else {
        match spec_release_of(lines[0]) {
            Some(v) => Some(v),
            None => spec_db_release(lines.drop_first()),
        }
    }
}

/// The release version of one line, when it names one.
fn release_of_line(line: &str) -> (r: Option<String>)
    ensures
        match r {
            Some(v) => spec_release_of(line@) == Some(v@),
            None => spec_release_of(line@) is None,
        },
{
    if !crate::text::match_at(line, "depend release", 0) {
        return None;
    }
    match crate::text::find_from(line, "release/", 0) {
        Some(vs) => {
            proof {
                assert(crate::text::has_at(line@, "release/"@, vs as int));
                let v2 = choose|v2: int|
                    crate::text::first_match_from(line@, "release/"@, 0, v2);
                if v2 < vs as int {
                    assert(!crate::text::has_at(line@, "release/"@, v2));
                }
                if v2 > vs as int {
                    assert(!crate::text::has_at(line@, "release/"@, vs as int));
                }
                assert(v2 == vs as int);
                assert(("release/"@).len() == 8) by {
                    reveal_strlit("release/");
                }
            }
            let ll: usize = vstd::string::StrSliceExecFns::unicode_len(line);
            proof {
                assert(vs + 8 <= ll);
            }
            let cs: usize = vs + 8;
            let q: usize = match crate::text::find_char_from(line, ' ', cs) {
                Some(q) => q,
                None => ll,
            };
            Some(crate::text::substr(line, cs, q))
        },
        None => {
            proof {
                if crate::text::contains_seq(line@, "release/"@) {
                    let w = choose|w: int| crate::text::has_at(line@, "release/"@, w);
                    assert(!crate::text::has_at(line@, "release/"@, w));
                }
            }
            None
        },
    }
}

/// Extract the release version the package database names.
pub fn parse_tlpdb_release_version(content: &str) -> (r: Option<String>)
    ensures
        match r {
            Some(v) => spec_db_release(spec_lines(content@)) == Some(v@),
            None => spec_db_release(spec_lines(content@)) is None,
        },
{
    let lines = crate::text::split_lines(content);
    let mut i: usize = 0;
    proof {
        assert(views_of(lines@).skip(0) =~= views_of(lines@));
    }
    while i < lines.len()
        invariant
            i <= lines.len(),
            views_of(lines@) == spec_lines(content@),
            spec_db_release(spec_lines(content@)) == spec_db_release(
                views_of(lines@).skip(i as int),
            ),
        decreases lines.len() - i,
    {
        let ghost rest = views_of(lines@).skip(i as int);
        proof {
            assert(rest[0] == views_of(lines@)[i as int]);
            assert(rest.drop_first() =~= views_of(lines@).skip(i + 1));
        }
        match release_of_line(lines[i].as_str()) {
            Some(v) => {
                return Some(v);
            },
            None => {},
        }
        i += 1;
    }
    proof {
        assert(spec_db_release(views_of(lines@).skip(lines@.len() as int)) is None);
    }
    None
}

} // verus!

verus! {

/// The package record a finished scan state yields.
pub open spec fn tlpdb_pkg(
    cur: (Seq<char>, Seq<char>, Seq<Seq<char>>),
    dist: Seq<char>,
) -> InstalledPackageModel {
    InstalledPackageModel {
        name: cur.0,
        version: "unknown"@,
        description: cur.1,
        files: cur.2,
        install_path: dist,
    }
}

/// One pass over the database lines: a `name` line stores the package
/// collected so far and starts a new one, a `shortdesc` line sets its
/// description, an indented line holding a slash adds a file under the
/// distribution tree, and anything else is skipped.
pub open spec fn tlpdb_fold(
    lines: Seq<Seq<char>>,
    cur: Option<(Seq<char>, Seq<char>, Seq<Seq<char>>)>,
    pkgs: Seq<InstalledPackageModel>,
    dist: Seq<char>,
) -> Seq<InstalledPackageModel>
    decreases lines.len(),
{
    if lines.len() == 0 {
        match cur {
            Some(c) => insert_pkg(pkgs, tlpdb_pkg(c, dist)),
            None => pkgs,
        }
    } else {
        let l = lines[0];
        if has_at_start(l, "name "@) {
            let pkgs2 = match cur {
                Some(c) => insert_pkg(pkgs, tlpdb_pkg(c, dist)),
                None => pkgs,
            };
            tlpdb_fold(
                lines.drop_first(),
                Some((l.skip(5), Seq::<char>::empty(), Seq::<Seq<char>>::empty())),
                pkgs2,
                dist,
            )
        } else if has_at_start(l, "shortdesc "@) {
            let cur2 = match cur {
                Some(c) => Some((c.0, l.skip(10), c.2)),
                None => None,
            };
            tlpdb_fold(lines.drop_first(), cur2, pkgs, dist)
        } else if l.len() > 0 && l[0] == ' ' && crate::text::contains_seq(l, "/"@) {
            let cur2 = match cur {
                Some(c) => Some((c.0, c.1, c.2.push(join_path(dist, spec_trim(l))))),
                None => None,
            };
            tlpdb_fold(lines.drop_first(), cur2, pkgs, dist)
        } else {
            tlpdb_fold(lines.drop_first(), cur, pkgs, dist)
        }
    }
}

/// The model of a scan state.
pub open spec fn cur_view(c: Option<(String, String, Vec<String>)>) -> Option<
    (Seq<char>, Seq<char>, Seq<Seq<char>>),
> {
    match c {
        Some(t) => Some((t.0@, t.1@, views_of(t.2@))),
        None => None,
    }
}

impl TeXLiveManager {
    /// Scan the package database text and store every package it
    /// describes. Needs a detected installation, whose distribution tree
    /// prefixes the relative file paths.
    pub fn parse_tlpdb(&mut self, content: &str)
        requires
            old(self).texlive_info is Some,
        ensures
            final(self).texlive_info == old(self).texlive_info,
            pkg_models(final(self).installed_packages@) == tlpdb_fold(
                spec_lines(content@),
                None,
                pkg_models(old(self).installed_packages@),
                (match old(self).texlive_info {
                    Some(info) => info@.texmf_dist,
                    None => Seq::empty(),
                }),
            ),
    {
        let dist = match &self.texlive_info {
            Some(info) => info.texmf_dist.clone(),
            None => String::new(),
        };
        let ghost distv = dist@;
        let ghost pkgs0 = pkg_models(self.installed_packages@);
        let lines = crate::text::split_lines(content);
        let mut cur: Option<(String, String, Vec<String>)> = None;
        let mut i: usize = 0;
        proof {
            assert(views_of(lines@).skip(0) =~= views_of(lines@));
        }
        while i < lines.len()
            invariant
                i <= lines.len(),
                views_of(lines@) == spec_lines(content@),
                self.texlive_info == old(self).texlive_info,
                old(self).texlive_info is Some,
                distv == (match old(self).texlive_info {
                    Some(info) => info@.texmf_dist,
                    None => Seq::<char>::empty(),
                }),
                tlpdb_fold(spec_lines(content@), None, pkgs0, distv) == tlpdb_fold(
                    views_of(lines@).skip(i as int),
                    cur_view(cur),
                    pkg_models(self.installed_packages@),
                    distv,
                ),
            decreases lines.len() - i,
        {
            let ghost rest = views_of(lines@).skip(i as int);
            proof {
                assert(rest[0] == views_of(lines@)[i as int]);
                assert(rest.drop_first() =~= views_of(lines@).skip(i + 1));
            }
            let l = lines[i].as_str();
            let ll: usize = vstd::string::StrSliceExecFns::unicode_len(l);
            if crate::text::match_at(l, "name ", 0) {
                proof {
                    assert(("name "@).len() == 5) by {
                        reveal_strlit("name ");
                    }
                }
                let newname = crate::text::substr(l, 5, ll);
                proof {
                    assert(newname@ =~= rest[0].skip(5));
                }
                let prev = cur;
                let empty_files: Vec<String> = Vec::new();
                proof {
                    assert(views_of(empty_files@) =~= Seq::<Seq<char>>::empty());
                }
                cur = Some((newname, String::new(), empty_files));
                match prev {
                    Some((n, d, f)) => {
                        self.add_package_from_tlpdb(n, d, f);
                    },
                    None => {},
                }
            } else if crate::text::match_at(l, "shortdesc ", 0) {
                proof {
                    assert(("shortdesc "@).len() == 10) by {
                        reveal_strlit("shortdesc ");
                    }
                }
                let dsc = crate::text::substr(l, 10, ll);
                proof {
                    assert(dsc@ =~= rest[0].skip(10));
                }
                cur = match cur {
                    Some((n, _, f)) => Some((n, dsc, f)),
                    None => None,
                };
            } else if ll > 0 && vstd::string::StrSliceExecFns::get_char(l, 0) == ' '
                && crate::text::contains_sub(l, "/") {
                let t = crate::text::trim(l);
                let tl: usize = vstd::string::StrSliceExecFns::unicode_len(t.as_str());
                let joined: String;
                if tl > 0 && vstd::string::StrSliceExecFns::get_char(t.as_str(), 0) == '/' {
                    joined = t;
                } else {
                    joined = dist.clone().concat("/").concat(t.as_str());
                }
                proof {
                    assert(joined@ == join_path(distv, spec_trim(rest[0])));
                }
                cur = match cur {
                    Some((n, d, mut f)) => {
                        let ghost fv = views_of(f@);
                        proof {
                            assert(views_of(f@.push(joined)) =~= fv.push(joined@));
                        }
                        f.push(joined);
                        Some((n, d, f))
                    },
                    None => None,
                };
            }
            i += 1;
        }
        proof {
            assert(views_of(lines@).skip(lines@.len() as int) =~= Seq::<Seq<char>>::empty());
        }
        match cur {
            Some((n, d, f)) => {
                self.add_package_from_tlpdb(n, d, f);
            },
            None => {},
        }
    }
}

} // verus!
