//! Classification of TeX compiler output: extraction of candidate missing
//! package names from error text, and the answer whether a failure is
//! package-related at all.
use vstd::prelude::*;
use vstd::string::StrSliceExecFns;

use vstd::string::StringExecFns;

use crate::tex_parser::{scan_caps, scan_cmd_caps, TeXParser};
use crate::text::{
    contains_seq, contains_str, contains_sub, find_from, has_at, is_space_char, match_at,
    sorted_insert_unique, spec_lines, spec_trim, split_lines, strictly_sorted, substr, trim,
    views_of,
};

verus! {

/// The character classes that end a captured name.
#[derive(Debug, Clone, Copy, PartialEq, Eq, Structural)]
pub enum StopClass {
    /// A single quote.
    Quote,
    /// Whitespace.
    Space,
    /// Whitespace, a slash or a backslash: what cannot stand in a file name
    /// captured before a suffix.
    NonName,
}

/// Whether `c` belongs to the stop class `cls`.
pub open spec fn in_stop_class(c: char, cls: StopClass) -> bool {
    match cls {
        StopClass::Quote => c == '\'',
        StopClass::Space => is_space_char(c),
        StopClass::NonName => is_space_char(c) || c == '/' || c == '\\',
    }
}

fn is_stop(c: char, cls: StopClass) -> (r: bool)
    ensures
        r == in_stop_class(c, cls),
{
    match cls {
        StopClass::Quote => c == '\'',
        StopClass::Space => crate::text::is_space(c),
        StopClass::NonName => crate::text::is_space(c) || c == '/' || c == '\\',
    }
}

/// Index of the first character of class `cls` at or after `from`;
/// `s.len()` when there is none.
pub open spec fn index_of_first_stop(s: Seq<char>, cls: StopClass, from: int) -> int
    decreases s.len() - from,
{
    if from < 0 || from >= s.len() {
        s.len() as int
    } else if in_stop_class(s[from], cls) {
        from
    } else {
        index_of_first_stop(s, cls, from + 1)
    }
}

pub proof fn lemma_index_of_first_stop_pub(s: Seq<char>, cls: StopClass, from: int)
    requires
        0 <= from <= s.len(),
    ensures
        from <= index_of_first_stop(s, cls, from) <= s.len(),
        forall|k: int|
            from <= k < index_of_first_stop(s, cls, from) ==> !in_stop_class(#[trigger] s[k], cls),
        index_of_first_stop(s, cls, from) < s.len() ==> in_stop_class(
            s[index_of_first_stop(s, cls, from)],
            cls,
        ),
    decreases s.len() - from,
{
    if from < s.len() && !in_stop_class(s[from], cls) {
        lemma_index_of_first_stop_pub(s, cls, from + 1);
    }
}

proof fn lemma_index_of_first_stop(s: Seq<char>, cls: StopClass, from: int)
    requires
        0 <= from <= s.len(),
    ensures
        from <= index_of_first_stop(s, cls, from) <= s.len(),
        forall|k: int|
            from <= k < index_of_first_stop(s, cls, from) ==> !in_stop_class(#[trigger] s[k], cls),
        index_of_first_stop(s, cls, from) < s.len() ==> in_stop_class(
            s[index_of_first_stop(s, cls, from)],
            cls,
        ),
    decreases s.len() - from,
{
    if from < s.len() && !in_stop_class(s[from], cls) {
        lemma_index_of_first_stop(s, cls, from + 1);
    }
}

/// Position of the first character of class `cls` at or after `from`.
pub(crate) fn find_stop_from(s: &str, cls: StopClass, from: usize) -> (r: Option<usize>)
    requires
        from <= s@.len(),
    ensures
        match r {
            Some(i) => from <= i < s@.len() && i == index_of_first_stop(s@, cls, from as int),
            None => index_of_first_stop(s@, cls, from as int) == s@.len(),
        },
{
    let sl: usize = s.unicode_len();
    let mut i: usize = from;
    while i < sl
        invariant
            from <= i <= sl,
            sl == s@.len(),
            forall|k: int| from <= k < i ==> !in_stop_class(#[trigger] s@[k], cls),
        decreases sl - i,
    {
        if is_stop(s.get_char(i), cls) {
            proof {
                lemma_index_of_first_stop(s@, cls, from as int);
                if index_of_first_stop(s@, cls, from as int) != i as int {
                    assert(in_stop_class(s@[index_of_first_stop(s@, cls, from as int)], cls));
                }
            }
            return Some(i);
        }
        i += 1;
    }
    proof {
        lemma_index_of_first_stop(s@, cls, from as int);
        if index_of_first_stop(s@, cls, from as int) < s@.len() {
            assert(in_stop_class(s@[index_of_first_stop(s@, cls, from as int)], cls));
        }
    }
    None
}

/// Where the suffix of a prefix–capture–suffix pattern begins for the
/// occurrence starting at `i`: the prefix stands at `i`, then at least one
/// character outside the stop class, then the suffix; `-1` when the pattern
/// does not match at `i`. The suffix must hold a stop-class character, which
/// pins the capture end down.
pub open spec fn cap_after_end(
    text: Seq<char>,
    pre: Seq<char>,
    cls: StopClass,
    suf: Seq<char>,
    i: int,
) -> int {
    if !has_at(text, pre, i) {
        -1
    } else {
        let cs = i + pre.len() as int;
        let k = index_of_first_stop(suf, cls, 0);
        let q = index_of_first_stop(text, cls, cs);
        let e = q - k;
        if e >= cs + 1 && has_at(text, suf, e) {
            e
        } else {
            -1
        }
    }
}

/// The captures of all occurrences of a prefix–capture–suffix pattern in
/// `text` at or after `p`, leftmost first and non-overlapping.
pub open spec fn cap_after_scan(
    text: Seq<char>,
    pre: Seq<char>,
    cls: StopClass,
    suf: Seq<char>,
    p: int,
) -> Seq<Seq<char>>
    decreases text.len() - p,
{
    if p < 0 || p >= text.len() {
        Seq::empty()
    } else {
        let e = cap_after_end(text, pre, cls, suf, p);
        if e >= 0 {
            let cs = p + pre.len() as int;
            let end = e + suf.len() as int;
            if p < end <= text.len() {
                seq![text.subrange(cs, e)] + cap_after_scan(text, pre, cls, suf, end)
            } else {
                Seq::empty()
            }
        } else {
            cap_after_scan(text, pre, cls, suf, p + 1)
        }
    }
}

/// Try to match the prefix–capture–suffix pattern at `p`; on success return
/// the capture and the position right after the suffix.
fn cap_after_step(text: &str, pre: &str, cls: StopClass, suf: &str, p: usize) -> (r: Option<
    (String, usize),
>)
    ensures
        match r {
            Some(pair) => {
                &&& cap_after_end(text@, pre@, cls, suf@, p as int) >= 0
                &&& pair.0@ == text@.subrange(
                    p + pre@.len(),
                    cap_after_end(text@, pre@, cls, suf@, p as int),
                )
                &&& pair.1 == cap_after_end(text@, pre@, cls, suf@, p as int) + suf@.len()
                &&& p < pair.1 <= text@.len()
            },
            None => cap_after_end(text@, pre@, cls, suf@, p as int) < 0,
        },
{
    let tl: usize = text.unicode_len();
    if !match_at(text, pre, p) {
        return None;
    }
    let cs: usize = p + pre.unicode_len();
    let k: usize = match find_stop_from(suf, cls, 0) {
        Some(k) => k,
        None => suf.unicode_len(),
    };
    let q: usize = match find_stop_from(text, cls, cs) {
        Some(q) => q,
        None => tl,
    };
    if q < k || q - k <= cs {
        return None;
    }
    let e: usize = q - k;
    if !match_at(text, suf, e) {
        return None;
    }
    let sl: usize = suf.unicode_len();
    let cap = substr(text, cs, e);
    Some((cap, e + sl))
}

/// Collect the captures of all occurrences of a prefix–capture–suffix
/// pattern in `text`.
fn cap_after_collect(text: &str, pre: &str, cls: StopClass, suf: &str, out: &mut Vec<String>)
    ensures
        views_of(final(out)@) == views_of(old(out)@) + cap_after_scan(text@, pre@, cls, suf@, 0),
{
    let tl: usize = text.unicode_len();
    let mut p: usize = 0;
    while p < tl
        invariant
            p <= tl,
            tl == text@.len(),
            views_of(out@) + cap_after_scan(text@, pre@, cls, suf@, p as int) == views_of(
                old(out)@,
            ) + cap_after_scan(text@, pre@, cls, suf@, 0),
        decreases tl - p,
    {
        match cap_after_step(text, pre, cls, suf, p) {
            Some(pair) => {
                proof {
                    assert(views_of(out@.push(pair.0)) =~= views_of(out@).push(pair.0@));
                    assert(views_of(out@.push(pair.0)) + cap_after_scan(
                        text@,
                        pre@,
                        cls,
                        suf@,
                        pair.1 as int,
                    ) =~= views_of(out@) + cap_after_scan(text@, pre@, cls, suf@, p as int));
                }
                let (cap, end) = pair;
                out.push(cap);
                p = end;
            },
            None => {
                p += 1;
            },
        }
    }
    proof {
        assert(cap_after_scan(text@, pre@, cls, suf@, p as int) =~= Seq::<Seq<char>>::empty());
        assert(views_of(out@) =~= views_of(out@) + cap_after_scan(text@, pre@, cls, suf@, p as int));
    }
}

/// Where the suffix begins for a capture–suffix occurrence whose capture
/// starts at `p`: at least one character outside the stop class, then the
/// suffix; `-1` when there is no match starting at `p`.
pub open spec fn before_cap_end(text: Seq<char>, cls: StopClass, suf: Seq<char>, p: int) -> int {
    if p < 0 || p >= text.len() || in_stop_class(text[p], cls) {
        -1
    } else {
        let k = index_of_first_stop(suf, cls, 0);
        let run_end = index_of_first_stop(text, cls, p);
        let e = run_end - k;
        if e >= p + 1 && has_at(text, suf, e) {
            e
        } else {
            -1
        }
    }
}

/// The captures of all occurrences of a capture–suffix pattern, leftmost
/// first and non-overlapping.
pub open spec fn before_cap_scan(text: Seq<char>, cls: StopClass, suf: Seq<char>, p: int) -> Seq<
    Seq<char>,
>
    decreases text.len() - p,
{
    if p < 0 || p >= text.len() {
        Seq::empty()
    } else {
        let e = before_cap_end(text, cls, suf, p);
        if e >= 0 {
            let end = e + suf.len() as int;
            if p < end <= text.len() {
                seq![text.subrange(p, e)] + before_cap_scan(text, cls, suf, end)
            } else {
                Seq::empty()
            }
        } else {
            before_cap_scan(text, cls, suf, p + 1)
        }
    }
}

/// Try to match a capture–suffix occurrence whose capture starts at `p`.
fn before_cap_step(text: &str, cls: StopClass, suf: &str, p: usize) -> (r: Option<(String, usize)>)
    requires
        p < text@.len(),
    ensures
        match r {
            Some(pair) => {
                &&& before_cap_end(text@, cls, suf@, p as int) >= 0
                &&& pair.0@ == text@.subrange(p as int, before_cap_end(text@, cls, suf@, p as int))
                &&& pair.1 == before_cap_end(text@, cls, suf@, p as int) + suf@.len()
                &&& p < pair.1 <= text@.len()
            },
            None => before_cap_end(text@, cls, suf@, p as int) < 0,
        },
{
    let tl: usize = text.unicode_len();
    if is_stop(text.get_char(p), cls) {
        return None;
    }
    let k: usize = match find_stop_from(suf, cls, 0) {
        Some(k) => k,
        None => suf.unicode_len(),
    };
    let run_end: usize = match find_stop_from(text, cls, p) {
        Some(q) => q,
        None => tl,
    };
    if run_end < k || run_end - k <= p {
        return None;
    }
    let e: usize = run_end - k;
    if !match_at(text, suf, e) {
        return None;
    }
    let cap = substr(text, p, e);
    Some((cap, e + suf.unicode_len()))
}

/// Collect the captures of all occurrences of a capture–suffix pattern.
fn before_cap_collect(text: &str, cls: StopClass, suf: &str, out: &mut Vec<String>)
    ensures
        views_of(final(out)@) == views_of(old(out)@) + before_cap_scan(text@, cls, suf@, 0),
{
    let tl: usize = text.unicode_len();
    let mut p: usize = 0;
    while p < tl
        invariant
            p <= tl,
            tl == text@.len(),
            views_of(out@) + before_cap_scan(text@, cls, suf@, p as int) == views_of(old(out)@)
                + before_cap_scan(text@, cls, suf@, 0),
        decreases tl - p,
    {
        match before_cap_step(text, cls, suf, p) {
            Some(pair) => {
                proof {
                    assert(views_of(out@.push(pair.0)) =~= views_of(out@).push(pair.0@));
                    assert(views_of(out@.push(pair.0)) + before_cap_scan(
                        text@,
                        cls,
                        suf@,
                        pair.1 as int,
                    ) =~= views_of(out@) + before_cap_scan(text@, cls, suf@, p as int));
                }
                let (cap, end) = pair;
                out.push(cap);
                p = end;
            },
            None => {
                p += 1;
            },
        }
    }
    proof {
        assert(before_cap_scan(text@, cls, suf@, p as int) =~= Seq::<Seq<char>>::empty());
        assert(views_of(out@) =~= views_of(out@) + before_cap_scan(text@, cls, suf@, p as int));
    }
}

/// Position of the quote that closes an unknown-option report starting at
/// `i`: the report names an option, then the package whose name it ends
/// with a quote; `-1` when no such report starts at `i`.
pub open spec fn unknown_option_end(text: Seq<char>, i: int) -> int {
    if !has_at(text, "Unknown option `"@, i) {
        -1
    } else {
        let q1 = crate::text::index_of_first(text, '\'', i + "Unknown option `"@.len() as int);
        if !has_at(text, "' for package `"@, q1) {
            -1
        } else {
            let q2 = crate::text::index_of_first(
                text,
                '\'',
                q1 + "' for package `"@.len() as int,
            );
            if q2 < text.len() {
                q2
            } else {
                -1
            }
        }
    }
}

/// The package name an unknown-option report at `i` names.
pub open spec fn unknown_option_cap(text: Seq<char>, i: int) -> Seq<char> {
    let q1 = crate::text::index_of_first(text, '\'', i + "Unknown option `"@.len() as int);
    text.subrange(q1 + "' for package `"@.len() as int, unknown_option_end(text, i))
}

/// The package names of all unknown-option reports in `text` at or after
/// `p`.
pub open spec fn unknown_option_scan(text: Seq<char>, p: int) -> Seq<Seq<char>>
    decreases text.len() - p,
{
    if p < 0 || p >= text.len() {
        Seq::empty()
    } else {
        let e = unknown_option_end(text, p);
        if e >= 0 {
            let end = e + 1;
            if p < end <= text.len() {
                seq![unknown_option_cap(text, p)] + unknown_option_scan(text, end)
            } else {
                Seq::empty()
            }
        } else {
            unknown_option_scan(text, p + 1)
        }
    }
}

/// Try to match one unknown-option report starting at `p`.
fn unknown_option_step(text: &str, p: usize) -> (r: Option<(String, usize)>)
    ensures
        match r {
            Some(pair) => {
                &&& unknown_option_end(text@, p as int) >= 0
                &&& pair.0@ == unknown_option_cap(text@, p as int)
                &&& pair.1 == unknown_option_end(text@, p as int) + 1
                &&& p < pair.1 <= text@.len()
            },
            None => unknown_option_end(text@, p as int) < 0,
        },
{
    let tl: usize = text.unicode_len();
    let pre1 = "Unknown option `";
    let pre2 = "' for package `";
    if !match_at(text, pre1, p) {
        return None;
    }
    let q1: usize = match crate::text::find_char_from(text, '\'', p + pre1.unicode_len()) {
        Some(q) => q,
        None => tl,
    };
    if !match_at(text, pre2, q1) {
        return None;
    }
    let q2: usize = match crate::text::find_char_from(text, '\'', q1 + pre2.unicode_len()) {
        Some(q) => q,
        None => {
            return None;
        },
    };
    let cap = substr(text, q1 + pre2.unicode_len(), q2);
    Some((cap, q2 + 1))
}

/// Collect the package names of all unknown-option reports.
fn unknown_option_collect(text: &str, out: &mut Vec<String>)
    ensures
        views_of(final(out)@) == views_of(old(out)@) + unknown_option_scan(text@, 0),
{
    let tl: usize = text.unicode_len();
    let mut p: usize = 0;
    while p < tl
        invariant
            p <= tl,
            tl == text@.len(),
            views_of(out@) + unknown_option_scan(text@, p as int) == views_of(old(out)@)
                + unknown_option_scan(text@, 0),
        decreases tl - p,
    {
        match unknown_option_step(text, p) {
            Some(pair) => {
                proof {
                    assert(views_of(out@.push(pair.0)) =~= views_of(out@).push(pair.0@));
                    assert(views_of(out@.push(pair.0)) + unknown_option_scan(text@, pair.1 as int)
                        =~= views_of(out@) + unknown_option_scan(text@, p as int));
                }
                let (cap, end) = pair;
                out.push(cap);
                p = end;
            },
            None => {
                p += 1;
            },
        }
    }
    proof {
        assert(unknown_option_scan(text@, p as int) =~= Seq::<Seq<char>>::empty());
        assert(views_of(out@) =~= views_of(out@) + unknown_option_scan(text@, p as int));
    }
}

/// The package a well-known undefined command hints at, checked in a fixed
/// order; the line is expected to report an undefined control sequence.
pub open spec fn undefined_cmd_package(line: Seq<char>) -> Option<Seq<char>> {
    if contains_seq(line, "\\includegraphics"@) {
        Some("graphicx"@)
    } else if contains_seq(line, "\\url"@) {
        Some("url"@)
    } else if contains_seq(line, "\\href"@) {
        Some("hyperref"@)
    } else if contains_seq(line, "\\textcolor"@) {
        Some("xcolor"@)
    } else if contains_seq(line, "\\colorbox"@) {
        Some("xcolor"@)
    } else if contains_seq(line, "\\fcolorbox"@) {
        Some("xcolor"@)
    } else if contains_seq(line, "\\begin{figure}"@) {
        Some("graphicx"@)
    } else if contains_seq(line, "\\begin{table}"@) {
        Some("array"@)
    } else if contains_seq(line, "\\toprule"@) {
        Some("booktabs"@)
    } else if contains_seq(line, "\\midrule"@) {
        Some("booktabs"@)
    } else if contains_seq(line, "\\bottomrule"@) {
        Some("booktabs"@)
    } else if contains_seq(line, "\\multicolumn"@) {
        Some("array"@)
    } else if contains_seq(line, "\\multirow"@) {
        Some("multirow"@)
    } else if contains_seq(line, "\\footnotesize"@) {
        Some("geometry"@)
    } else {
        None
    }
}

/// All raw captures the textual error patterns yield on `text`, pattern by
/// pattern in a fixed order.
pub open spec fn error_captures(text: Seq<char>) -> Seq<Seq<char>> {
    cap_after_scan(text, "File `"@, StopClass::Quote, ".sty' not found"@, 0) + cap_after_scan(
        text,
        "File `"@,
        StopClass::Quote,
        ".cls' not found"@,
        0,
    ) + unknown_option_scan(text, 0) + cap_after_scan(
        text,
        "Package "@,
        StopClass::Space,
        " Error:"@,
        0,
    ) + scan_caps(text, "\\usepackage"@, false, 0) + before_cap_scan(
        text,
        StopClass::NonName,
        ".sty not found"@,
        0,
    ) + cap_after_scan(text, "Can't find file `"@, StopClass::Quote, ".sty'"@, 0) + cap_after_scan(
        text,
        "I can't find file `"@,
        StopClass::Quote,
        ".sty'"@,
        0,
    )
}

/// Whether `y` is one of the missing-package names the classifier reports
/// for `text`: a trimmed, non-empty pattern capture, or the package a
/// well-known undefined command on an undefined-control-sequence line
/// hints at.
pub open spec fn spec_missing_name(text: Seq<char>, y: Seq<char>) -> bool {
    ||| (exists|ci: int|
        0 <= ci < error_captures(text).len() && spec_trim(#[trigger] error_captures(text)[ci]) == y
            && y.len() > 0)
    ||| (exists|li: int|
        0 <= li < spec_lines(text).len() && contains_seq(
            #[trigger] spec_lines(text)[li],
            "Undefined control sequence"@,
        ) && undefined_cmd_package(spec_lines(text)[li]) == Some(y))
}

/// The package a line's undefined command hints at, if any.
fn undefined_hint(line: &str) -> (r: Option<String>)
    ensures
        match r {
            Some(p) => undefined_cmd_package(line@) == Some(p@),
            None => undefined_cmd_package(line@) is None,
        },
{
    if contains_sub(line, "\\includegraphics") {
        Some(String::from_str("graphicx"))
    } else if contains_sub(line, "\\url") {
        Some(String::from_str("url"))
    } else if contains_sub(line, "\\href") {
        Some(String::from_str("hyperref"))
    } else if contains_sub(line, "\\textcolor") {
        Some(String::from_str("xcolor"))
    } else if contains_sub(line, "\\colorbox") {
        Some(String::from_str("xcolor"))
    } else if contains_sub(line, "\\fcolorbox") {
        Some(String::from_str("xcolor"))
    } else if contains_sub(line, "\\begin{figure}") {
        Some(String::from_str("graphicx"))
    } else if contains_sub(line, "\\begin{table}") {
        Some(String::from_str("array"))
    } else if contains_sub(line, "\\toprule") {
        Some(String::from_str("booktabs"))
    } else if contains_sub(line, "\\midrule") {
        Some(String::from_str("booktabs"))
    } else if contains_sub(line, "\\bottomrule") {
        Some(String::from_str("booktabs"))
    } else if contains_sub(line, "\\multicolumn") {
        Some(String::from_str("array"))
    } else if contains_sub(line, "\\multirow") {
        Some(String::from_str("multirow"))
    } else if contains_sub(line, "\\footnotesize") {
        Some(String::from_str("geometry"))
    } else {
        None
    }
}

impl TeXParser {
    /// The deduplicated, ascending list of candidate missing-package names
    /// in one failed compilation's combined output.
    pub fn parse_compilation_errors(&self, error_output: &str) -> (r: Vec<String>)
        ensures
            strictly_sorted(views_of(r@)),
            forall|y: Seq<char>|
                contains_str(views_of(r@), y) <==> spec_missing_name(error_output@, y),
    {
        let mut caps: Vec<String> = Vec::new();
        cap_after_collect(error_output, "File `", StopClass::Quote, ".sty' not found", &mut caps);
        cap_after_collect(error_output, "File `", StopClass::Quote, ".cls' not found", &mut caps);
        unknown_option_collect(error_output, &mut caps);
        cap_after_collect(error_output, "Package ", StopClass::Space, " Error:", &mut caps);
        let usepkg_caps = scan_cmd_caps(error_output, "\\usepackage", false);
        let ghost mid = views_of(caps@);
        let mut j: usize = 0;
        proof {
            assert(views_of(usepkg_caps@).skip(0) =~= views_of(usepkg_caps@));
        }
        while j < usepkg_caps.len()
            invariant
                j <= usepkg_caps.len(),
                views_of(caps@) + views_of(usepkg_caps@).skip(j as int) == mid + views_of(
                    usepkg_caps@,
                ),
            decreases usepkg_caps.len() - j,
        {
            proof {
                assert(views_of(usepkg_caps@).skip(j as int)[0] == usepkg_caps@[j as int]@);
                assert(views_of(caps@.push(usepkg_caps@[j as int])) =~= views_of(caps@).push(
                    usepkg_caps@[j as int]@,
                ));
                assert(views_of(caps@.push(usepkg_caps@[j as int])) + views_of(
                    usepkg_caps@,
                ).skip(j + 1) =~= views_of(caps@) + views_of(usepkg_caps@).skip(j as int));
            }
            let item = usepkg_caps[j].clone();
            caps.push(item);
            j += 1;
        }
        proof {
            assert(views_of(usepkg_caps@).skip(usepkg_caps@.len() as int)
                =~= Seq::<Seq<char>>::empty());
            assert(views_of(caps@) =~= views_of(caps@) + views_of(usepkg_caps@).skip(
                usepkg_caps@.len() as int,
            ));
        }
        before_cap_collect(error_output, StopClass::NonName, ".sty not found", &mut caps);
        cap_after_collect(error_output, "Can't find file `", StopClass::Quote, ".sty'", &mut caps);
        cap_after_collect(
            error_output,
            "I can't find file `",
            StopClass::Quote,
            ".sty'",
            &mut caps,
        );
        proof {
            assert(views_of(caps@) =~= error_captures(error_output@));
        }
        let mut out: Vec<String> = Vec::new();
        let mut i: usize = 0;
        while i < caps.len()
            invariant
                i <= caps.len(),
                views_of(caps@) == error_captures(error_output@),
                strictly_sorted(views_of(out@)),
                forall|y: Seq<char>|
                    contains_str(views_of(out@), y) <==> (exists|ci: int|
                        0 <= ci < i && spec_trim(#[trigger] views_of(caps@)[ci]) == y && y.len()
                            > 0),
            decreases caps.len() - i,
        {
            let t = trim(caps[i].as_str());
            let ghost prev = views_of(out@);
            let ghost tv = t@;
            let nonempty = t.unicode_len() > 0;
            if nonempty {
                sorted_insert_unique(&mut out, t);
            }
            proof {
                let cv = views_of(caps@);
                assert(tv == spec_trim(cv[i as int]));
                assert forall|y: Seq<char>|
                    contains_str(views_of(out@), y) <==> (exists|ci: int|
                        0 <= ci < i + 1 && spec_trim(#[trigger] cv[ci]) == y && y.len() > 0) by {
                    if contains_str(views_of(out@), y) {
                        if nonempty && y == tv {
                            assert(spec_trim(cv[i as int]) == y && y.len() > 0);
                        } else {
                            assert(contains_str(prev, y));
                        }
                    }
                    if exists|ci: int|
                        0 <= ci < i + 1 && spec_trim(#[trigger] cv[ci]) == y && y.len() > 0 {
                        let ci = choose|ci: int|
                            0 <= ci < i + 1 && spec_trim(#[trigger] cv[ci]) == y && y.len() > 0;
                        if ci < i {
                            assert(contains_str(prev, y));
                            assert(contains_str(views_of(out@), y));
                        } else {
                            assert(y == tv && y.len() > 0);
                            assert(contains_str(views_of(out@), y));
                        }
                    }
                }
            }
            i += 1;
        }
        let lines = split_lines(error_output);
        let mut li: usize = 0;
        while li < lines.len()
            invariant
                li <= lines.len(),
                views_of(lines@) == spec_lines(error_output@),
                strictly_sorted(views_of(out@)),
                forall|y: Seq<char>|
                    contains_str(views_of(out@), y) <==> ((exists|ci: int|
                        0 <= ci < error_captures(error_output@).len() && spec_trim(
                            #[trigger] error_captures(error_output@)[ci],
                        ) == y && y.len() > 0) || (exists|lj: int|
                        0 <= lj < li && contains_seq(
                            #[trigger] views_of(lines@)[lj],
                            "Undefined control sequence"@,
                        ) && undefined_cmd_package(views_of(lines@)[lj]) == Some(y))),
            decreases lines.len() - li,
        {
            let ghost prev = views_of(out@);
            let ghost lv = views_of(lines@)[li as int];
            let marker = contains_sub(lines[li].as_str(), "Undefined control sequence");
            if marker {
                match undefined_hint(lines[li].as_str()) {
                    Some(pkg) => {
                        let ghost pv = pkg@;
                        sorted_insert_unique(&mut out, pkg);
                        proof {
                            assert(undefined_cmd_package(lv) == Some(pv));
                        }
                    },
                    None => {},
                }
            }
            proof {
                let ls = views_of(lines@);
                assert forall|y: Seq<char>|
                    contains_str(views_of(out@), y) <==> ((exists|ci: int|
                        0 <= ci < error_captures(error_output@).len() && spec_trim(
                            #[trigger] error_captures(error_output@)[ci],
                        ) == y && y.len() > 0) || (exists|lj: int|
                        0 <= lj < li + 1 && contains_seq(
                            #[trigger] ls[lj],
                            "Undefined control sequence"@,
                        ) && undefined_cmd_package(ls[lj]) == Some(y))) by {
                    if contains_str(views_of(out@), y) && !contains_str(prev, y) {
                        assert(marker && undefined_cmd_package(lv) == Some(y));
                        assert(contains_seq(ls[li as int], "Undefined control sequence"@)
                            && undefined_cmd_package(ls[li as int]) == Some(y));
                    }
                    if (exists|lj: int|
                        0 <= lj < li + 1 && contains_seq(
                            #[trigger] ls[lj],
                            "Undefined control sequence"@,
                        ) && undefined_cmd_package(ls[lj]) == Some(y)) && !(exists|lj: int|
                        0 <= lj < li && contains_seq(
                            #[trigger] ls[lj],
                            "Undefined control sequence"@,
                        ) && undefined_cmd_package(ls[lj]) == Some(y)) {
                        let lj = choose|lj: int|
                            0 <= lj < li + 1 && contains_seq(
                                #[trigger] ls[lj],
                                "Undefined control sequence"@,
                            ) && undefined_cmd_package(ls[lj]) == Some(y);
                        assert(lj == li as int);
                        assert(contains_str(views_of(out@), y));
                    }
                }
            }
            li += 1;
        }
        out
    }
}

} // verus!

verus! {

/// `a` occurs in `l`, and `b` occurs at or after the end of that
/// occurrence.
pub open spec fn in_order2(l: Seq<char>, a: Seq<char>, b: Seq<char>) -> bool {
    exists|i: int, j: int| has_at(l, a, i) && has_at(l, b, j) && i + a.len() <= j
}

/// `a`, then `b`, then `c`, each at or after the end of the previous
/// occurrence.
pub open spec fn in_order3(l: Seq<char>, a: Seq<char>, b: Seq<char>, c: Seq<char>) -> bool {
    exists|i: int, j: int, k: int|
        has_at(l, a, i) && has_at(l, b, j) && has_at(l, c, k) && i + a.len() <= j && j + b.len()
            <= k
}

/// An ASCII letter.
pub open spec fn is_ascii_letter_char(c: char) -> bool {
    ('a' <= c && c <= 'z') || ('A' <= c && c <= 'Z')
}

/// `a` occurs in `l`, followed somewhere by a backslash and a letter: the
/// shape of a control-sequence mention.
pub open spec fn followed_by_cmd(l: Seq<char>, a: Seq<char>) -> bool {
    exists|i: int, j: int|
        #[trigger] has_at(l, a, i) && i + a.len() <= j && j + 2 <= l.len() && #[trigger] l[j]
            == '\\' && is_ascii_letter_char(l[j + 1])
}

/// The line patterns that mark a hard syntax or semantic error, never cured
/// by installing a package.
pub open spec fn line_non_package(l: Seq<char>) -> bool {
    ||| in_order2(l, "Missing"@, "begin{document}"@)
    ||| in_order2(l, "Extra"@, "}"@)
    ||| in_order2(l, "Missing"@, "$"@)
    ||| in_order2(l, "Misplaced"@, "&"@)
    ||| in_order2(l, "Paragraph ended before"@, "was complete"@)
    ||| in_order2(l, "Use of"@, "doesn't match its definition"@)
    ||| in_order2(l, "Illegal"@, "character"@)
}

/// The output reports a hard error that package installation cannot cure.
pub open spec fn is_non_package_error(text: Seq<char>) -> bool {
    ||| contains_seq(text, "Syntax error"@)
    ||| contains_seq(text, "Missing control sequence inserted"@)
    ||| contains_seq(text, "Missing number"@)
    ||| contains_seq(text, "Dimension too large"@)
    ||| exists|li: int|
        0 <= li < spec_lines(text).len() && line_non_package(#[trigger] spec_lines(text)[li])
}

/// The line patterns that point at a missing or broken package.
pub open spec fn line_package(l: Seq<char>) -> bool {
    ||| in_order2(l, ".sty"@, "not found"@)
    ||| in_order2(l, ".cls"@, "not found"@)
    ||| in_order2(l, "Package"@, "Error"@)
    ||| in_order2(l, "Package"@, "Warning"@)
    ||| in_order2(l, "Unknown option"@, "for package"@)
    ||| in_order2(l, "Undefined control sequence"@, "\\usepackage"@)
    ||| in_order3(l, "File"@, ".sty"@, "not found"@)
    ||| in_order3(l, "File"@, ".cls"@, "not found"@)
    ||| in_order2(l, "Can't find file"@, ".sty"@)
    ||| in_order2(l, "I can't find file"@, ".sty"@)
    ||| followed_by_cmd(l, "Undefined control sequence"@)
    ||| in_order2(l, "Environment"@, "undefined"@)
    ||| in_order2(l, "Command"@, "not defined"@)
}

/// The output shows a package-indicative pattern.
pub open spec fn is_package_error_pattern(text: Seq<char>) -> bool {
    ||| contains_seq(text, "Unknown environment"@)
    ||| exists|li: int|
        0 <= li < spec_lines(text).len() && line_package(#[trigger] spec_lines(text)[li])
}

/// A failure counts as package-related only when no hard-error pattern
/// matches and some package-indicative pattern does; anything else fails
/// closed.
pub open spec fn spec_is_package_related(text: Seq<char>) -> bool {
    !is_non_package_error(text) && is_package_error_pattern(text)
}

/// Whether `a` occurs in `l` followed by `b`.
fn check_in_order2(l: &str, a: &str, b: &str) -> (r: bool)
    ensures
        r == in_order2(l@, a@, b@),
{
    let ll: usize = l.unicode_len();
    match find_from(l, a, 0) {
        Some(i) => {
            let al: usize = a.unicode_len();
            assert(i + al <= ll);
            match find_from(l, b, i + al) {
                Some(j) => {
                    assert(has_at(l@, a@, i as int) && has_at(l@, b@, j as int));
                    true
                },
                None => {
                    proof {
                        if in_order2(l@, a@, b@) {
                            let (i2, j2): (int, int) = choose|i2: int, j2: int|
                                has_at(l@, a@, i2) && has_at(l@, b@, j2) && i2 + a@.len() <= j2;
                            assert(i2 >= i);
                            assert(j2 >= i + al);
                            assert(!has_at(l@, b@, j2));
                        }
                    }
                    false
                },
            }
        },
        None => {
            proof {
                if in_order2(l@, a@, b@) {
                    let (i2, j2): (int, int) = choose|i2: int, j2: int|
                        has_at(l@, a@, i2) && has_at(l@, b@, j2) && i2 + a@.len() <= j2;
                    assert(!has_at(l@, a@, i2));
                }
            }
            false
        },
    }
}

/// Whether `a`, `b` and `c` occur in `l` in this order.
fn check_in_order3(l: &str, a: &str, b: &str, c: &str) -> (r: bool)
    ensures
        r == in_order3(l@, a@, b@, c@),
{
    let ll: usize = l.unicode_len();
    match find_from(l, a, 0) {
        Some(i) => {
            let al: usize = a.unicode_len();
            assert(i + al <= ll);
            match find_from(l, b, i + al) {
                Some(j) => {
                    let bl: usize = b.unicode_len();
                    assert(j + bl <= ll);
                    match find_from(l, c, j + bl) {
                        Some(k) => {
                            assert(has_at(l@, a@, i as int) && has_at(l@, b@, j as int) && has_at(
                                l@,
                                c@,
                                k as int,
                            ));
                            true
                        },
                        None => {
                            proof {
                                if in_order3(l@, a@, b@, c@) {
                                    let (i2, j2, k2): (int, int, int) = choose|
                                        i2: int,
                                        j2: int,
                                        k2: int,
                                    |
                                        has_at(l@, a@, i2) && has_at(l@, b@, j2) && has_at(
                                            l@,
                                            c@,
                                            k2,
                                        ) && i2 + a@.len() <= j2 && j2 + b@.len() <= k2;
                                    assert(i2 >= i);
                                    assert(j2 >= i + al);
                                    assert(j2 >= j);
                                    assert(k2 >= j + bl);
                                    assert(!has_at(l@, c@, k2));
                                }
                            }
                            false
                        },
                    }
                },
                None => {
                    proof {
                        if in_order3(l@, a@, b@, c@) {
                            let (i2, j2, k2): (int, int, int) = choose|i2: int, j2: int, k2: int|
                                has_at(l@, a@, i2) && has_at(l@, b@, j2) && has_at(l@, c@, k2)
                                    && i2 + a@.len() <= j2 && j2 + b@.len() <= k2;
                            assert(i2 >= i);
                            assert(j2 >= i + al);
                            assert(!has_at(l@, b@, j2));
                        }
                    }
                    false
                },
            }
        },
        None => {
            proof {
                if in_order3(l@, a@, b@, c@) {
                    let (i2, j2, k2): (int, int, int) = choose|i2: int, j2: int, k2: int|
                        has_at(l@, a@, i2) && has_at(l@, b@, j2) && has_at(l@, c@, k2) && i2
                            + a@.len() <= j2 && j2 + b@.len() <= k2;
                    assert(!has_at(l@, a@, i2));
                }
            }
            false
        },
    }
}

fn is_ascii_letter(c: char) -> (r: bool)
    ensures
        r == is_ascii_letter_char(c),
{
    ('a' <= c && c <= 'z') || ('A' <= c && c <= 'Z')
}

/// Whether `a` occurs in `l` followed by a backslash and a letter.
fn check_followed_by_cmd(l: &str, a: &str) -> (r: bool)
    ensures
        r == followed_by_cmd(l@, a@),
{
    let ll: usize = l.unicode_len();
    match find_from(l, a, 0) {
        Some(i) => {
            let al: usize = a.unicode_len();
            assert(i + al <= ll);
            let start: usize = i + al;
            let mut j: usize = start;
            while j < ll && j + 1 < ll
                invariant
                    start <= j,
                    ll == l@.len(),
                    i + al == start,
                    has_at(l@, a@, i as int),
                    forall|j2: int|
                        start <= j2 < j ==> !(#[trigger] l@[j2] == '\\' && is_ascii_letter_char(
                            l@[j2 + 1],
                        )),
                decreases ll - j,
            {
                if l.get_char(j) == '\\' && is_ascii_letter(l.get_char(j + 1)) {
                    assert(has_at(l@, a@, i as int) && l@[j as int] == '\\'
                        && is_ascii_letter_char(l@[j + 1]));
                    return true;
                }
                j += 1;
            }
            proof {
                if followed_by_cmd(l@, a@) {
                    let (i2, j2): (int, int) = choose|i2: int, j2: int|
                        #[trigger] has_at(l@, a@, i2) && i2 + a@.len() <= j2 && j2 + 2 <= l@.len()
                            && #[trigger] l@[j2] == '\\' && is_ascii_letter_char(l@[j2 + 1]);
                    assert(i2 >= i);
                    assert(j2 >= start);
                    assert(j2 < j || j2 + 1 >= ll);
                    assert(!(l@[j2] == '\\' && is_ascii_letter_char(l@[j2 + 1])));
                }
            }
            false
        },
        None => {
            proof {
                if followed_by_cmd(l@, a@) {
                    let (i2, j2): (int, int) = choose|i2: int, j2: int|
                        #[trigger] has_at(l@, a@, i2) && i2 + a@.len() <= j2 && j2 + 2 <= l@.len()
                            && #[trigger] l@[j2] == '\\' && is_ascii_letter_char(l@[j2 + 1]);
                    assert(!has_at(l@, a@, i2));
                }
            }
            false
        },
    }
}

/// Whether one line matches any hard-error pattern.
fn line_non_package_exec(l: &str) -> (r: bool)
    ensures
        r == line_non_package(l@),
{
    check_in_order2(l, "Missing", "begin{document}") || check_in_order2(l, "Extra", "}")
        || check_in_order2(l, "Missing", "$") || check_in_order2(l, "Misplaced", "&")
        || check_in_order2(l, "Paragraph ended before", "was complete") || check_in_order2(
        l,
        "Use of",
        "doesn't match its definition",
    ) || check_in_order2(l, "Illegal", "character")
}

/// Whether one line matches any package-indicative pattern.
fn line_package_exec(l: &str) -> (r: bool)
    ensures
        r == line_package(l@),
{
    check_in_order2(l, ".sty", "not found") || check_in_order2(l, ".cls", "not found")
        || check_in_order2(l, "Package", "Error") || check_in_order2(l, "Package", "Warning")
        || check_in_order2(l, "Unknown option", "for package") || check_in_order2(
        l,
        "Undefined control sequence",
        "\\usepackage",
    ) || check_in_order3(l, "File", ".sty", "not found") || check_in_order3(
        l,
        "File",
        ".cls",
        "not found",
    ) || check_in_order2(l, "Can't find file", ".sty") || check_in_order2(
        l,
        "I can't find file",
        ".sty",
    ) || check_followed_by_cmd(l, "Undefined control sequence") || check_in_order2(
        l,
        "Environment",
        "undefined",
    ) || check_in_order2(l, "Command", "not defined")
}

impl TeXParser {
    /// Whether a failed compilation's output points at a missing or broken
    /// package rather than a hard error in the document.
    pub fn is_package_related_error(&self, error_output: &str) -> (r: bool)
        ensures
            r == spec_is_package_related(error_output@),
    {
        let lines = split_lines(error_output);
        let mut any_non: bool = contains_sub(error_output, "Syntax error") || contains_sub(
            error_output,
            "Missing control sequence inserted",
        ) || contains_sub(error_output, "Missing number") || contains_sub(
            error_output,
            "Dimension too large",
        );
        let mut any_pkg: bool = contains_sub(error_output, "Unknown environment");
        let ghost base_non = any_non;
        let ghost base_pkg = any_pkg;
        let mut li: usize = 0;
        while li < lines.len()
            invariant
                li <= lines.len(),
                views_of(lines@) == spec_lines(error_output@),
                any_non == (base_non || exists|lj: int|
                    0 <= lj < li && line_non_package(#[trigger] views_of(lines@)[lj])),
                any_pkg == (base_pkg || exists|lj: int|
                    0 <= lj < li && line_package(#[trigger] views_of(lines@)[lj])),
            decreases lines.len() - li,
        {
            let ghost lv = views_of(lines@)[li as int];
            if line_non_package_exec(lines[li].as_str()) {
                any_non = true;
                proof {
                    assert(line_non_package(views_of(lines@)[li as int]));
                }
            }
            if line_package_exec(lines[li].as_str()) {
                any_pkg = true;
                proof {
                    assert(line_package(views_of(lines@)[li as int]));
                }
            }
            li += 1;
        }
        !any_non && any_pkg
    }
}

} // verus!

verus! {

proof fn lemma_pattern_in_line(text: Seq<char>, pat: Seq<char>, i: int)
    requires
        has_at(text, pat, i),
        pat.len() > 0,
        forall|k: int| 0 <= k < pat.len() ==> #[trigger] pat[k] != '\n' && pat[k] != '\r',
    ensures
        exists|li: int, j: int|
            0 <= li < spec_lines(text).len() && #[trigger] has_at(spec_lines(text)[li], pat, j),
    decreases text.len(),
{
    assert(text.len() > 0);
    let nl = crate::text::index_of_first(text, '\n', 0);
    crate::text::lemma_index_of_first(text, '\n', 0);
    if 0 <= nl < text.len() {
        let seg = text.subrange(0, nl);
        let line0 = crate::text::strip_cr(seg);
        let suffix = text.subrange(nl + 1, text.len() as int);
        assert(spec_lines(text) == seq![line0] + spec_lines(suffix));
        if i + pat.len() <= nl {
            assert forall|k: int| 0 <= k < pat.len() implies text[i + k] == pat[k] by {
                assert(text.subrange(i, i + pat.len() as int)[k] == pat[k]);
            }
            if seg.len() > 0 && seg[seg.len() - 1] == '\r' {
                assert(i + pat.len() <= nl - 1) by {
                    if i + pat.len() == nl {
                        assert(text[i + (pat.len() - 1)] == pat[pat.len() - 1]);
                    }
                }
                assert(line0 == seg.drop_last());
                assert(has_at(line0, pat, i)) by {
                    assert(line0.subrange(i, i + pat.len() as int) =~= pat);
                }
            } else {
                assert(line0 == seg);
                assert(has_at(line0, pat, i)) by {
                    assert(line0.subrange(i, i + pat.len() as int) =~= pat);
                }
            }
            assert(spec_lines(text)[0] == line0);
        } else if i >= nl + 1 {
            assert(has_at(suffix, pat, i - nl - 1)) by {
                assert(suffix.subrange(i - nl - 1, i - nl - 1 + pat.len() as int) =~= text.subrange(
                    i,
                    i + pat.len() as int,
                ));
            }
            lemma_pattern_in_line(suffix, pat, i - nl - 1);
            let (li2, j2): (int, int) = choose|li2: int, j2: int|
                0 <= li2 < spec_lines(suffix).len() && #[trigger] has_at(
                    spec_lines(suffix)[li2],
                    pat,
                    j2,
                );
            assert(spec_lines(text)[li2 + 1] == spec_lines(suffix)[li2]);
            assert(has_at(spec_lines(text)[li2 + 1], pat, j2));
        } else {
            assert(i <= nl < i + pat.len());
            assert(text.subrange(i, i + pat.len() as int)[nl - i] == pat[nl - i]);
            assert(pat[nl - i] == '\n');
            assert(false);
        }
    } else {
        assert(spec_lines(text) == seq![text]);
        assert(spec_lines(text)[0] == text);
        assert(has_at(spec_lines(text)[0], pat, i));
    }
}

/// An output that contains the math-mode report `Missing $ inserted` is
/// never classified as package-related, whatever else it holds.
pub proof fn lemma_missing_dollar_not_package_related(text: Seq<char>)
    requires
        contains_seq(text, "Missing $ inserted"@),
    ensures
        !spec_is_package_related(text),
{
    reveal_strlit("Missing $ inserted");
    reveal_strlit("Missing");
    reveal_strlit("$");
    let pat = "Missing $ inserted"@;
    let i = choose|i: int| has_at(text, pat, i);
    assert(pat.len() == 18);
    assert(forall|k: int| 0 <= k < pat.len() ==> #[trigger] pat[k] != '\n' && pat[k] != '\r');
    lemma_pattern_in_line(text, pat, i);
    let (li, j): (int, int) = choose|li: int, j: int|
        0 <= li < spec_lines(text).len() && #[trigger] has_at(spec_lines(text)[li], pat, j);
    let l = spec_lines(text)[li];
    assert forall|k: int| 0 <= k < pat.len() implies l[j + k] == pat[k] by {
        assert(l.subrange(j, j + pat.len() as int)[k] == pat[k]);
    }
    assert(has_at(l, "Missing"@, j)) by {
        assert(l.subrange(j, j + 7) =~= "Missing"@);
    }
    assert(has_at(l, "$"@, j + 8)) by {
        assert(l[j + 8] == pat[8]);
        assert(pat[8] == '$');
        assert(l.subrange(j + 8, j + 9) =~= "$"@);
    }
    assert(in_order2(l, "Missing"@, "$"@));
    assert(line_non_package(l));
    assert(is_non_package_error(text));
}

} // verus!
