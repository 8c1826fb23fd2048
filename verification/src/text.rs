//! Verified text primitives: substring search, trimming, line splitting and
//! lexicographic ordering over `Seq<char>` models of strings.
use vstd::prelude::*;
use vstd::string::StrSliceExecFns;
use vstd::string::StringExecFns;

verus! {

/// ASCII whitespace, the characters this library's trimming removes.
pub open spec fn is_space_char(c: char) -> bool {
    c == ' ' || c == '\t' || c == '\r' || c == '\n' || c == '\x0b' || c == '\x0c'
}

pub fn is_space(c: char) -> (r: bool)
    ensures
        r == is_space_char(c),
{
    c == ' ' || c == '\t' || c == '\r' || c == '\n' || c == '\x0b' || c == '\x0c'
}

/// The pattern `pat` occurs in `s` starting at position `i`.
pub open spec fn has_at(s: Seq<char>, pat: Seq<char>, i: int) -> bool {
    0 <= i && i + pat.len() <= s.len() && s.subrange(i, i + pat.len() as int) == pat
}

/// The pattern `pat` occurs somewhere in `s`.
pub open spec fn contains_seq(s: Seq<char>, pat: Seq<char>) -> bool {
    exists|i: int| has_at(s, pat, i)
}

/// `pat` occurs at `i` and no earlier than `from`.
pub open spec fn first_match_from(s: Seq<char>, pat: Seq<char>, from: int, i: int) -> bool {
    &&& from <= i
    &&& has_at(s, pat, i)
    &&& forall|j: int| from <= j < i ==> !has_at(s, pat, j)
}

/// Whether `pat` occurs at position `i` of `s`.
pub fn match_at(s: &str, pat: &str, i: usize) -> (r: bool)
    ensures
        r == has_at(s@, pat@, i as int),
{
    let sl: usize = s.unicode_len();
    let pl: usize = pat.unicode_len();
    if i > sl || pl > sl - i {
        assert(!has_at(s@, pat@, i as int));
        return false;
    }
    let mut j: usize = 0;
    while j < pl
        invariant
            i + pl <= sl,
            j <= pl,
            forall|k: int| 0 <= k < j ==> s@[i + k] == pat@[k],
        decreases pl - j,
    {
        if s.get_char(i + j) != pat.get_char(j) {
            assert(!has_at(s@, pat@, i as int)) by {
                if has_at(s@, pat@, i as int) {
                    assert(s@.subrange(i as int, i + pat@.len() as int)[j as int] == pat@[j as int]);
                }
            }
            return false;
        }
        j += 1;
    }
    assert(s@.subrange(i as int, i + pat@.len() as int) =~= pat@);
    true
}

/// Position of the first occurrence of `pat` in `s` at or after `from`.
pub fn find_from(s: &str, pat: &str, from: usize) -> (r: Option<usize>)
    ensures
        match r {
            Some(i) => first_match_from(s@, pat@, from as int, i as int),
            None => forall|j: int| from <= j ==> !has_at(s@, pat@, j),
        },
{
    let sl: usize = s.unicode_len();
    if from > sl {
        return None;
    }
    let mut i: usize = from;
    while i < sl
        invariant
            from <= i <= sl,
            sl == s@.len(),
            forall|j: int| from <= j < i ==> !has_at(s@, pat@, j),
        decreases sl - i,
    {
        if match_at(s, pat, i) {
            return Some(i);
        }
        i += 1;
    }
    if match_at(s, pat, sl) {
        return Some(sl);
    }
    assert(forall|j: int| j > sl ==> !has_at(s@, pat@, j));
    None
}

/// Whether `pat` occurs anywhere in `s`.
pub fn contains_sub(s: &str, pat: &str) -> (r: bool)
    ensures
        r == contains_seq(s@, pat@),
{
    match find_from(s, pat, 0) {
        Some(i) => {
            assert(has_at(s@, pat@, i as int));
            true
        },
        None => {
            assert(forall|j: int| !has_at(s@, pat@, j)) by {
                assert(forall|j: int| j < 0 ==> !has_at(s@, pat@, j));
            }
            false
        },
    }
}

/// Index of the first occurrence of `c` in `s` at or after `from`;
/// `s.len()` when there is none.
pub open spec fn index_of_first(s: Seq<char>, c: char, from: int) -> int
    decreases s.len() - from,
{
    if from < 0 || from >= s.len() {
        s.len() as int
    } else if s[from] == c {
        from
    } else {
        index_of_first(s, c, from + 1)
    }
}

pub proof fn lemma_index_of_first(s: Seq<char>, c: char, from: int)
    requires
        0 <= from <= s.len(),
    ensures
        from <= index_of_first(s, c, from) <= s.len(),
        forall|k: int| from <= k < index_of_first(s, c, from) ==> s[k] != c,
        index_of_first(s, c, from) < s.len() ==> s[index_of_first(s, c, from)] == c,
    decreases s.len() - from,
{
    if from < s.len() && s[from] != c {
        lemma_index_of_first(s, c, from + 1);
    }
}

/// Position of the first occurrence of the character `c` at or after `from`.
pub fn find_char_from(s: &str, c: char, from: usize) -> (r: Option<usize>)
    requires
        from <= s@.len(),
    ensures
        match r {
            Some(i) => from <= i < s@.len() && i == index_of_first(s@, c, from as int),
            None => index_of_first(s@, c, from as int) == s@.len(),
        },
{
    let sl: usize = s.unicode_len();
    let mut i: usize = from;
    while i < sl
        invariant
            from <= i <= sl,
            sl == s@.len(),
            forall|k: int| from <= k < i ==> s@[k] != c,
        decreases sl - i,
    {
        if s.get_char(i) == c {
            proof {
                lemma_index_of_first(s@, c, from as int);
                if index_of_first(s@, c, from as int) != i as int {
                    assert(s@[index_of_first(s@, c, from as int)] == c);
                }
            }
            return Some(i);
        }
        i += 1;
    }
    proof {
        lemma_index_of_first(s@, c, from as int);
        if index_of_first(s@, c, from as int) < s@.len() {
            assert(s@[index_of_first(s@, c, from as int)] == c);
        }
    }
    None
}

/// Copy of `s` as an owned string.
pub fn str_copy(s: &str) -> (r: String)
    ensures
        r@ == s@,
{
    s.to_owned()
}

/// Substring of `s` from `from` (inclusive) to `to` (exclusive), by character
/// position.
pub fn substr(s: &str, from: usize, to: usize) -> (r: String)
    requires
        from <= to <= s@.len(),
    ensures
        r@ == s@.subrange(from as int, to as int),
{
    s.substring_char(from, to).to_owned()
}

/// Whether two strings hold the same characters.
pub fn str_eq(a: &str, b: &str) -> (r: bool)
    ensures
        r == (a@ == b@),
{
    let al: usize = a.unicode_len();
    let bl: usize = b.unicode_len();
    if al != bl {
        return false;
    }
    let mut i: usize = 0;
    while i < al
        invariant
            i <= al,
            al == a@.len() == b@.len(),
            forall|k: int| 0 <= k < i ==> a@[k] == b@[k],
        decreases al - i,
    {
        if a.get_char(i) != b.get_char(i) {
            return false;
        }
        i += 1;
    }
    assert(a@ =~= b@);
    true
}

/// Index of the first character at or after `from` that is not whitespace;
/// `s.len()` when there is none.
pub open spec fn first_non_space(s: Seq<char>, from: int) -> int
    decreases s.len() - from,
{
    if from < 0 || from >= s.len() {
        s.len() as int
    } else if !is_space_char(s[from]) {
        from
    } else {
        first_non_space(s, from + 1)
    }
}

proof fn lemma_first_non_space(s: Seq<char>, from: int)
    requires
        0 <= from <= s.len(),
    ensures
        from <= first_non_space(s, from) <= s.len(),
        forall|k: int| from <= k < first_non_space(s, from) ==> is_space_char(s[k]),
        first_non_space(s, from) < s.len() ==> !is_space_char(s[first_non_space(s, from)]),
    decreases s.len() - from,
{
    if from < s.len() && is_space_char(s[from]) {
        lemma_first_non_space(s, from + 1);
    }
}

/// One past the index of the last character before `upto` that is not
/// whitespace; `0` when there is none.
pub open spec fn last_non_space(s: Seq<char>, upto: int) -> int
    decreases upto,
{
    if upto <= 0 || upto > s.len() {
        0
    } else if !is_space_char(s[upto - 1]) {
        upto
    } else {
        last_non_space(s, upto - 1)
    }
}

proof fn lemma_last_non_space(s: Seq<char>, upto: int)
    requires
        0 <= upto <= s.len(),
    ensures
        0 <= last_non_space(s, upto) <= upto,
        forall|k: int| last_non_space(s, upto) <= k < upto ==> is_space_char(s[k]),
        last_non_space(s, upto) > 0 ==> !is_space_char(s[last_non_space(s, upto) - 1]),
    decreases upto,
{
    if upto > 0 && is_space_char(s[upto - 1]) {
        lemma_last_non_space(s, upto - 1);
    }
}

/// `s` with leading and trailing whitespace removed.
pub open spec fn spec_trim(s: Seq<char>) -> Seq<char> {
    let a = first_non_space(s, 0);
    let b = last_non_space(s, s.len() as int);
    if a < b {
        s.subrange(a, b)
    } else {
        Seq::empty()
    }
}

/// Copy of `s` with leading and trailing whitespace removed.
pub fn trim(s: &str) -> (r: String)
    ensures
        r@ == spec_trim(s@),
{
    let sl: usize = s.unicode_len();
    let mut a: usize = 0;
    while a < sl && is_space(s.get_char(a))
        invariant
            a <= sl,
            sl == s@.len(),
            forall|k: int| 0 <= k < a ==> is_space_char(s@[k]),
        decreases sl - a,
    {
        a += 1;
    }
    proof {
        lemma_first_non_space(s@, 0);
        let fa = first_non_space(s@, 0);
        if fa < a {
            assert(is_space_char(s@[fa]));
        }
        if fa > a {
            assert(is_space_char(s@[a as int]));
        }
        assert(fa == a as int);
    }
    let mut b: usize = sl;
    while b > a && is_space(s.get_char(b - 1))
        invariant
            a <= b <= sl,
            sl == s@.len(),
            forall|k: int| b <= k < sl ==> is_space_char(s@[k]),
        decreases b,
    {
        b -= 1;
    }
    proof {
        lemma_last_non_space(s@, sl as int);
        let lb = last_non_space(s@, sl as int);
        if a < b {
            if lb < b {
                assert(is_space_char(s@[b - 1]));
            }
            if lb > b {
                assert(is_space_char(s@[lb - 1]));
            }
            assert(lb == b as int);
        } else {
            // everything from a on is whitespace, so the trimmed view is empty
            if lb > a {
                assert(is_space_char(s@[lb - 1]));
            }
            assert(lb <= first_non_space(s@, 0));
        }
    }
    if a < b {
        substr(s, a, b)
    } else {
        String::new()
    }
}

/// Lexicographic order on character sequences, by code point.
pub open spec fn str_le(a: Seq<char>, b: Seq<char>) -> bool
    decreases a.len(),
{
    if a.len() == 0 {
        true
    } else if b.len() == 0 {
        false
    } else if a[0] < b[0] {
        true
    } else if a[0] > b[0] {
        false
    } else {
        str_le(a.drop_first(), b.drop_first())
    }
}

/// Strict lexicographic order on character sequences.
pub open spec fn str_lt(a: Seq<char>, b: Seq<char>) -> bool {
    str_le(a, b) && a != b
}

pub proof fn lemma_str_le_total(a: Seq<char>, b: Seq<char>)
    ensures
        str_le(a, b) || str_le(b, a),
    decreases a.len(),
{
    if a.len() > 0 && b.len() > 0 && !(a[0] < b[0]) && !(a[0] > b[0]) {
        lemma_str_le_total(a.drop_first(), b.drop_first());
    }
}

pub proof fn lemma_str_le_antisym(a: Seq<char>, b: Seq<char>)
    requires
        str_le(a, b),
        str_le(b, a),
    ensures
        a == b,
    decreases a.len(),
{
    if a.len() > 0 && b.len() > 0 {
        assert(a[0] == b[0]);
        lemma_str_le_antisym(a.drop_first(), b.drop_first());
        assert(a.drop_first().len() == b.drop_first().len());
        assert(a.len() == b.len());
        assert forall|i: int| 0 <= i < a.len() implies a[i] == b[i] by {
            if i > 0 {
                assert(a.drop_first()[i - 1] == b.drop_first()[i - 1]);
            }
        }
        assert(a =~= b);
    } else {
        assert(a.len() == 0 && b.len() == 0);
        assert(a =~= b);
    }
}

pub proof fn lemma_str_le_trans(a: Seq<char>, b: Seq<char>, c: Seq<char>)
    requires
        str_le(a, b),
        str_le(b, c),
    ensures
        str_le(a, c),
    decreases a.len(),
{
    if a.len() > 0 && b.len() > 0 && c.len() > 0 {
        if a[0] == b[0] && b[0] == c[0] {
            lemma_str_le_trans(a.drop_first(), b.drop_first(), c.drop_first());
        }
    }
}

proof fn lemma_str_le_skip(a: Seq<char>, b: Seq<char>, i: int)
    requires
        0 <= i <= a.len(),
        i <= b.len(),
        forall|k: int| 0 <= k < i ==> a[k] == b[k],
    ensures
        str_le(a, b) == str_le(a.skip(i), b.skip(i)),
    decreases i,
{
    if i == 0 {
        assert(a.skip(0) =~= a);
        assert(b.skip(0) =~= b);
    } else {
        assert(a[0] == b[0]);
        assert(a.drop_first().skip(i - 1) =~= a.skip(i));
        assert(b.drop_first().skip(i - 1) =~= b.skip(i));
        lemma_str_le_skip(a.drop_first(), b.drop_first(), i - 1);
    }
}

/// Whether `a` comes no later than `b` in lexicographic order.
pub fn str_le_exec(a: &str, b: &str) -> (r: bool)
    ensures
        r == str_le(a@, b@),
{
    let al: usize = a.unicode_len();
    let bl: usize = b.unicode_len();
    let mut i: usize = 0;
    while i < al && i < bl
        invariant
            i <= al,
            i <= bl,
            al == a@.len(),
            bl == b@.len(),
            forall|k: int| 0 <= k < i ==> a@[k] == b@[k],
        decreases al - i,
    {
        let ca = a.get_char(i);
        let cb = b.get_char(i);
        if ca < cb {
            proof {
                lemma_str_le_skip(a@, b@, i as int);
            }
            return true;
        }
        if ca > cb {
            proof {
                lemma_str_le_skip(a@, b@, i as int);
            }
            return false;
        }
        i += 1;
    }
    proof {
        lemma_str_le_skip(a@, b@, i as int);
    }
    i == al
}

/// A line with one trailing carriage return removed.
pub open spec fn strip_cr(l: Seq<char>) -> Seq<char> {
    if l.len() > 0 && l[l.len() - 1] == '\r' {
        l.drop_last()
    } else {
        l
    }
}

/// The lines of `s`: split at each line feed, dropping a carriage return
/// that stands right before it; a final segment without a line feed is a
/// line of its own unless it is empty.
pub open spec fn spec_lines(s: Seq<char>) -> Seq<Seq<char>>
    decreases s.len(),
{
    if s.len() == 0 {
        Seq::empty()
    } else {
        let i = index_of_first(s, '\n', 0);
        if 0 <= i < s.len() {
            seq![strip_cr(s.subrange(0, i))] + spec_lines(s.subrange(i + 1, s.len() as int))
        } else {
            seq![s]
        }
    }
}

/// The character-sequence views of a sequence of strings.
pub open spec fn views_of(v: Seq<String>) -> Seq<Seq<char>> {
    v.map_values(|s: String| s@)
}

/// Split `s` into its lines.
#[verifier::rlimit(30)]
pub fn split_lines(s: &str) -> (r: Vec<String>)
    ensures
        views_of(r@) == spec_lines(s@),
{
    let mut out: Vec<String> = Vec::new();
    let sl: usize = s.unicode_len();
    let mut pos: usize = 0;
    proof {
        assert(s@.skip(0) =~= s@);
        assert(views_of(out@) =~= Seq::<Seq<char>>::empty());
    }
    while pos < sl
        invariant
            pos <= sl,
            sl == s@.len(),
            spec_lines(s@) == views_of(out@) + spec_lines(s@.skip(pos as int)),
        decreases sl - pos,
    {
        let ghost suffix = s@.skip(pos as int);
        proof {
            lemma_index_of_first(suffix, '\n', 0);
        }
        match find_char_from(s, '\n', pos) {
            Some(i) => {
                proof {
                    lemma_index_of_first(s@, '\n', pos as int);
                    let j = index_of_first(suffix, '\n', 0);
                    // the first line feed of the suffix is the first one at
                    // or after `pos` in the whole string
                    assert(forall|k: int|
                        0 <= k < suffix.len() ==> suffix[k] == s@[pos + k]);
                    if j < i - pos {
                        assert(s@[pos + j] == '\n');
                    }
                    if j > i - pos {
                        assert(suffix[i - pos] == '\n');
                    }
                    assert(j == i - pos);
                }
                let mut line_end: usize = i;
                if line_end > pos && s.get_char(line_end - 1) == '\r' {
                    line_end -= 1;
                }
                let line = substr(s, pos, line_end);
                proof {
                    let j = index_of_first(suffix, '\n', 0);
                    assert(suffix.subrange(0, j) =~= s@.subrange(pos as int, i as int));
                    assert(strip_cr(suffix.subrange(0, j)) =~= line@);
                    assert(suffix.subrange(j + 1, suffix.len() as int) =~= s@.skip(i + 1));
                    assert(spec_lines(suffix) == seq![line@] + spec_lines(s@.skip(i + 1)));
                    assert(views_of(out@.push(line)) =~= views_of(out@).push(line@));
                    assert(views_of(out@) + spec_lines(suffix) =~= views_of(out@.push(line))
                        + spec_lines(s@.skip(i + 1)));
                }
                out.push(line);
                pos = i + 1;
            },
            None => {
                let line = substr(s, pos, sl);
                proof {
                    let j = index_of_first(suffix, '\n', 0);
                    assert(forall|k: int|
                        0 <= k < suffix.len() ==> suffix[k] == s@[pos + k]);
                    if j < suffix.len() {
                        assert(s@[pos + j] == '\n');
                        lemma_index_of_first(s@, '\n', pos as int);
                        assert(s@[pos + j] != '\n');
                    }
                    assert(spec_lines(suffix) == seq![suffix]);
                    assert(suffix =~= line@);
                    assert(s@.skip(sl as int) =~= Seq::<char>::empty());
                    assert(views_of(out@.push(line)) =~= views_of(out@).push(line@));
                    assert(views_of(out@) + spec_lines(suffix) =~= views_of(out@.push(line))
                        + spec_lines(s@.skip(sl as int)));
                }
                out.push(line);
                pos = sl;
            },
        }
    }
    proof {
        assert(s@.skip(sl as int) =~= Seq::<char>::empty());
        assert(spec_lines(s@) =~= views_of(out@) + spec_lines(Seq::<char>::empty()));
        assert(spec_lines(s@) =~= views_of(out@));
    }
    out
}

/// All entries of `v` are in strictly ascending lexicographic order.
pub open spec fn strictly_sorted(v: Seq<Seq<char>>) -> bool {
    forall|i: int, j: int| 0 <= i < j < v.len() ==> str_lt(#[trigger] v[i], #[trigger] v[j])
}

/// Some entry of `v` equals `x`.
pub open spec fn contains_str(v: Seq<Seq<char>>, x: Seq<char>) -> bool {
    exists|i: int| 0 <= i < v.len() && v[i] == x
}

/// Whether some entry of `v` holds the same characters as `x`.
pub fn vec_contains_str(v: &Vec<String>, x: &str) -> (r: bool)
    ensures
        r == contains_str(views_of(v@), x@),
{
    let mut i: usize = 0;
    while i < v.len()
        invariant
            i <= v.len(),
            forall|k: int| 0 <= k < i ==> views_of(v@)[k] != x@,
        decreases v.len() - i,
    {
        if str_eq(v[i].as_str(), x) {
            assert(views_of(v@)[i as int] == x@);
            return true;
        }
        i += 1;
    }
    false
}

/// Insert `x` into the strictly sorted vector `v`, keeping it strictly
/// sorted; a value already present is not inserted again.
pub fn sorted_insert_unique(v: &mut Vec<String>, x: String)
    requires
        strictly_sorted(views_of(old(v)@)),
    ensures
        strictly_sorted(views_of(final(v)@)),
        forall|y: Seq<char>|
            contains_str(views_of(final(v)@), y) <==> (contains_str(views_of(old(v)@), y) || y
                == x@),
{
    let mut i: usize = 0;
    while i < v.len()
        invariant
            i <= v.len(),
            v@ == old(v)@,
            strictly_sorted(views_of(v@)),
            forall|k: int| 0 <= k < i ==> str_lt(#[trigger] views_of(v@)[k], x@),
        decreases v.len() - i,
    {
        if str_eq(v[i].as_str(), x.as_str()) {
            proof {
                assert(views_of(v@)[i as int] == x@);
                assert(contains_str(views_of(v@), x@));
            }
            return;
        }
        if str_le_exec(x.as_str(), v[i].as_str()) {
            proof {
                let vs = views_of(v@);
                assert(str_lt(x@, vs[i as int]));
                let nvs = views_of(v@.insert(i as int, x));
                assert(nvs =~= vs.subrange(0, i as int) + seq![x@] + vs.subrange(
                    i as int,
                    vs.len() as int,
                ));
                assert forall|p: int, q: int| 0 <= p < q < nvs.len() implies str_lt(
                    #[trigger] nvs[p],
                    #[trigger] nvs[q],
                ) by {
                    if q < i {
                        assert(nvs[p] == vs[p] && nvs[q] == vs[q]);
                    } else if q == i {
                        assert(nvs[p] == vs[p] && nvs[q] == x@);
                    } else if p < i {
                        assert(nvs[p] == vs[p] && nvs[q] == vs[q - 1]);
                    } else if p == i {
                        assert(nvs[p] == x@ && nvs[q] == vs[q - 1]);
                        if (i as int) < q - 1 {
                            lemma_str_le_trans(x@, vs[i as int], vs[q - 1]);
                            if x@ == vs[q - 1] {
                                lemma_str_le_antisym(x@, vs[i as int]);
                            }
                        }
                    } else {
                        assert(nvs[p] == vs[p - 1] && nvs[q] == vs[q - 1]);
                    }
                }
                assert forall|y: Seq<char>|
                    contains_str(nvs, y) <==> (contains_str(vs, y) || y == x@) by {
                    if contains_str(nvs, y) {
                        let w = choose|w: int| 0 <= w < nvs.len() && nvs[w] == y;
                        if w < i {
                            assert(vs[w] == y);
                        } else if w > i {
                            assert(vs[w - 1] == y);
                        }
                    }
                    if contains_str(vs, y) {
                        let w = choose|w: int| 0 <= w < vs.len() && vs[w] == y;
                        if w < i {
                            assert(nvs[w] == y);
                        } else {
                            assert(nvs[w + 1] == y);
                        }
                    }
                    if y == x@ {
                        assert(nvs[i as int] == y);
                    }
                }
            }
            v.insert(i, x);
            return;
        }
        proof {
            let vs = views_of(v@);
            lemma_str_le_total(x@, vs[i as int]);
            assert(str_lt(vs[i as int], x@));
        }
        i += 1;
    }
    proof {
        let vs = views_of(v@);
        let nvs = views_of(v@.push(x));
        assert(nvs =~= vs.push(x@));
        assert forall|p: int, q: int| 0 <= p < q < nvs.len() implies str_lt(
            #[trigger] nvs[p],
            #[trigger] nvs[q],
        ) by {
            if q == vs.len() as int {
                assert(nvs[p] == vs[p] && nvs[q] == x@);
            }
        }
        assert forall|y: Seq<char>|
            contains_str(nvs, y) <==> (contains_str(vs, y) || y == x@) by {
            if contains_str(nvs, y) {
                let w = choose|w: int| 0 <= w < nvs.len() && nvs[w] == y;
                if w < vs.len() {
                    assert(vs[w] == y);
                }
            }
            if contains_str(vs, y) {
                let w = choose|w: int| 0 <= w < vs.len() && vs[w] == y;
                assert(nvs[w] == y);
            }
            if y == x@ {
                assert(nvs[vs.len() as int] == y);
            }
        }
    }
    v.push(x);
}

} // verus!

verus! {

/// `s` with every occurrence of `pat` replaced by `rep`, scanning left to
/// right without overlap; `s` itself when `pat` is empty.
pub open spec fn spec_replace(s: Seq<char>, pat: Seq<char>, rep: Seq<char>) -> Seq<char>
    decreases s.len(),
{
    if pat.len() == 0 || s.len() < pat.len() {
        s
    } else if s.subrange(0, pat.len() as int) == pat {
        rep + spec_replace(s.skip(pat.len() as int), pat, rep)
    } else {
        seq![s[0]] + spec_replace(s.drop_first(), pat, rep)
    }
}

/// Copy of `s` with every occurrence of `pat` replaced by `rep`.
pub fn replace_all(s: &str, pat: &str, rep: &str) -> (r: String)
    ensures
        r@ == spec_replace(s@, pat@, rep@),
{
    let pl: usize = pat.unicode_len();
    if pl == 0 {
        return str_copy(s);
    }
    let sl: usize = s.unicode_len();
    let mut out: String = String::new();
    let mut pos: usize = 0;
    proof {
        assert(s@.skip(0) =~= s@);
        assert(out@ + spec_replace(s@.skip(0), pat@, rep@) =~= spec_replace(s@, pat@, rep@));
    }
    while pos < sl
        invariant
            pos <= sl,
            sl == s@.len(),
            pl == pat@.len(),
            pl > 0,
            spec_replace(s@, pat@, rep@) == out@ + spec_replace(s@.skip(pos as int), pat@, rep@),
        decreases sl - pos,
    {
        let ghost suffix = s@.skip(pos as int);
        if match_at(s, pat, pos) {
            proof {
                assert(suffix.subrange(0, pl as int) =~= s@.subrange(pos as int, pos + pl));
                assert(suffix.skip(pl as int) =~= s@.skip(pos + pl));
                assert(spec_replace(suffix, pat@, rep@) == rep@ + spec_replace(
                    s@.skip(pos + pl),
                    pat@,
                    rep@,
                ));
            }
            out.append(rep);
            pos += pl;
        } else {
            proof {
                if suffix.len() >= pl && suffix.subrange(0, pl as int) == pat@ {
                    assert(suffix.subrange(0, pl as int) =~= s@.subrange(pos as int, pos + pl));
                    assert(has_at(s@, pat@, pos as int));
                }
                assert(suffix.drop_first() =~= s@.skip(pos + 1));
                assert(spec_replace(suffix, pat@, rep@) == seq![s@[pos as int]] + spec_replace(
                    s@.skip(pos + 1),
                    pat@,
                    rep@,
                ));
            }
            let c = s.substring_char(pos, pos + 1);
            proof {
                assert(c@ =~= seq![s@[pos as int]]);
            }
            out.append(c);
            pos += 1;
        }
    }
    proof {
        assert(s@.skip(sl as int) =~= Seq::<char>::empty());
        assert(out@ + spec_replace(s@.skip(sl as int), pat@, rep@) =~= out@);
    }
    out
}

} // verus!

verus! {

/// The pieces of `s` between occurrences of `c`, in order, separators
/// removed; one piece (possibly empty) when `c` does not occur.
pub open spec fn split_at_char(s: Seq<char>, c: char) -> Seq<Seq<char>>
    decreases s.len(),
{
    let i = index_of_first(s, c, 0);
    if 0 <= i < s.len() {
        seq![s.subrange(0, i)] + split_at_char(s.subrange(i + 1, s.len() as int), c)
    } else {
        seq![s]
    }
}

/// Split `s` at each occurrence of the character `c`.
pub fn split_char(s: &str, c: char) -> (r: Vec<String>)
    ensures
        views_of(r@) == split_at_char(s@, c),
{
    let sl: usize = s.unicode_len();
    let mut out: Vec<String> = Vec::new();
    let mut pos: usize = 0;
    proof {
        assert(s@.skip(0) =~= s@);
        assert(views_of(out@) =~= Seq::<Seq<char>>::empty());
    }
    let mut finished: bool = false;
    while !finished
        invariant
            pos <= sl,
            sl == s@.len(),
            !finished ==> split_at_char(s@, c) == views_of(out@) + split_at_char(
                s@.skip(pos as int),
                c,
            ),
            finished ==> views_of(out@) == split_at_char(s@, c),
        decreases sl - pos + (if finished { 0int } else { 1int }),
    {
        let ghost suffix = s@.skip(pos as int);
        proof {
            lemma_index_of_first(suffix, c, 0);
            assert(forall|k: int| 0 <= k < suffix.len() ==> suffix[k] == s@[pos + k]);
        }
        match find_char_from(s, c, pos) {
            Some(i) => {
                proof {
                    lemma_index_of_first(s@, c, pos as int);
                    let j = index_of_first(suffix, c, 0);
                    if j < i - pos {
                        assert(s@[pos + j] == c);
                    }
                    if j > i - pos {
                        assert(suffix[i - pos] == c);
                    }
                    assert(j == i - pos);
                }
                let piece = substr(s, pos, i);
                proof {
                    let j = index_of_first(suffix, c, 0);
                    assert(suffix.subrange(0, j) =~= s@.subrange(pos as int, i as int));
                    assert(suffix.subrange(j + 1, suffix.len() as int) =~= s@.skip(i + 1));
                    assert(split_at_char(suffix, c) == seq![piece@] + split_at_char(
                        s@.skip(i + 1),
                        c,
                    ));
                    assert(views_of(out@.push(piece)) =~= views_of(out@).push(piece@));
                    assert(views_of(out@) + split_at_char(suffix, c) =~= views_of(out@.push(piece))
                        + split_at_char(s@.skip(i + 1), c));
                }
                out.push(piece);
                pos = i + 1;
            },
            None => {
                proof {
                    let j = index_of_first(suffix, c, 0);
                    if j < suffix.len() {
                        assert(s@[pos + j] == c);
                        lemma_index_of_first(s@, c, pos as int);
                        assert(s@[pos + j] != c);
                    }
                }
                let piece = substr(s, pos, sl);
                proof {
                    assert(suffix =~= piece@);
                    assert(split_at_char(suffix, c) == seq![piece@]);
                    assert(views_of(out@.push(piece)) =~= views_of(out@).push(piece@));
                    assert(views_of(out@.push(piece)) =~= views_of(out@) + split_at_char(
                        suffix,
                        c,
                    ));
                }
                out.push(piece);
                finished = true;
            },
        }
    }
    out
}

/// The maximal whitespace-free words of `s`, in order.
pub open spec fn spec_words(s: Seq<char>) -> Seq<Seq<char>>
    decreases s.len(),
{
    if s.len() == 0 {
        Seq::empty()
    } else if is_space_char(s[0]) {
        spec_words(s.drop_first())
    } else {
        let e = crate::classifier::index_of_first_stop(s, crate::classifier::StopClass::Space, 0);
        if 1 <= e <= s.len() {
            seq![s.subrange(0, e)] + spec_words(s.subrange(e, s.len() as int))
        } else {
            seq![s]
        }
    }
}

/// Split `s` into its whitespace-separated words.
pub fn words(s: &str) -> (r: Vec<String>)
    ensures
        views_of(r@) == spec_words(s@),
{
    let sl: usize = s.unicode_len();
    let mut out: Vec<String> = Vec::new();
    let mut pos: usize = 0;
    proof {
        assert(s@.skip(0) =~= s@);
        assert(views_of(out@) =~= Seq::<Seq<char>>::empty());
    }
    while pos < sl
        invariant
            pos <= sl,
            sl == s@.len(),
            spec_words(s@) == views_of(out@) + spec_words(s@.skip(pos as int)),
        decreases sl - pos,
    {
        let ghost suffix = s@.skip(pos as int);
        if is_space(s.get_char(pos)) {
            proof {
                assert(suffix[0] == s@[pos as int]);
                assert(suffix.drop_first() =~= s@.skip(pos + 1));
                assert(spec_words(suffix) == spec_words(s@.skip(pos + 1)));
            }
            pos += 1;
        } else {
            let e_abs: usize = match crate::classifier::find_stop_from(
                s,
                crate::classifier::StopClass::Space,
                pos,
            ) {
                Some(q) => q,
                None => sl,
            };
            proof {
                crate::classifier::lemma_index_of_first_stop_pub(
                    suffix,
                    crate::classifier::StopClass::Space,
                    0,
                );
                crate::classifier::lemma_index_of_first_stop_pub(
                    s@,
                    crate::classifier::StopClass::Space,
                    pos as int,
                );
                let j = crate::classifier::index_of_first_stop(
                    suffix,
                    crate::classifier::StopClass::Space,
                    0,
                );
                assert(forall|k: int| 0 <= k < suffix.len() ==> suffix[k] == s@[pos + k]);
                if j < e_abs - pos {
                    assert(crate::classifier::in_stop_class(
                        s@[pos + j],
                        crate::classifier::StopClass::Space,
                    ));
                }
                if j > e_abs - pos {
                    assert(crate::classifier::in_stop_class(
                        suffix[e_abs - pos],
                        crate::classifier::StopClass::Space,
                    ));
                }
                assert(j == e_abs - pos);
                assert(j >= 1);
            }
            let word = substr(s, pos, e_abs);
            proof {
                let j = e_abs - pos;
                assert(suffix.subrange(0, j as int) =~= s@.subrange(pos as int, e_abs as int));
                assert(suffix.subrange(j as int, suffix.len() as int) =~= s@.skip(e_abs as int));
                assert(spec_words(suffix) == seq![word@] + spec_words(s@.skip(e_abs as int)));
                assert(views_of(out@.push(word)) =~= views_of(out@).push(word@));
                assert(views_of(out@) + spec_words(suffix) =~= views_of(out@.push(word))
                    + spec_words(s@.skip(e_abs as int)));
            }
            out.push(word);
            pos = e_abs;
        }
    }
    proof {
        assert(s@.skip(sl as int) =~= Seq::<char>::empty());
        assert(views_of(out@) =~= views_of(out@) + spec_words(s@.skip(sl as int)));
    }
    out
}

} // verus!

verus! {

/// Two strictly sorted lists with the same members are the same list.
pub proof fn lemma_sorted_unique_eq(a: Seq<Seq<char>>, b: Seq<Seq<char>>)
    requires
        strictly_sorted(a),
        strictly_sorted(b),
        forall|y: Seq<char>| contains_str(a, y) <==> contains_str(b, y),
    ensures
        a == b,
    decreases a.len(),
{
    if a.len() == 0 {
        if b.len() > 0 {
            assert(contains_str(b, b[0]));
            assert(contains_str(a, b[0]));
            let w = choose|w: int| 0 <= w < a.len() && a[w] == b[0];
            assert(false);
        }
        assert(a =~= b);
    } else {
        assert(contains_str(a, a[0]));
        assert(contains_str(b, a[0]));
        let j = choose|j: int| 0 <= j < b.len() && b[j] == a[0];
        assert(contains_str(b, b[0]));
        assert(contains_str(a, b[0]));
        let i = choose|i: int| 0 <= i < a.len() && a[i] == b[0];
        if i > 0 && j > 0 {
            assert(str_lt(a[0], a[i]));
            assert(str_lt(b[0], b[j]));
            lemma_str_le_antisym(a[0], b[0]);
            assert(false);
        }
        assert(a[0] == b[0]);
        let at = a.drop_first();
        let bt = b.drop_first();
        assert forall|p: int, q: int| 0 <= p < q < at.len() implies str_lt(
            #[trigger] at[p],
            #[trigger] at[q],
        ) by {
            assert(at[p] == a[p + 1] && at[q] == a[q + 1]);
        }
        assert forall|p: int, q: int| 0 <= p < q < bt.len() implies str_lt(
            #[trigger] bt[p],
            #[trigger] bt[q],
        ) by {
            assert(bt[p] == b[p + 1] && bt[q] == b[q + 1]);
        }
        assert forall|y: Seq<char>| contains_str(at, y) <==> contains_str(bt, y) by {
            if contains_str(at, y) {
                let w = choose|w: int| 0 <= w < at.len() && at[w] == y;
                assert(a[w + 1] == y);
                assert(contains_str(a, y));
                assert(contains_str(b, y));
                let v = choose|v: int| 0 <= v < b.len() && b[v] == y;
                if v == 0 {
                    assert(y == a[0]);
                    assert(str_lt(a[0], a[w + 1]));
                    assert(false);
                }
                assert(bt[v - 1] == y);
                assert(contains_str(bt, y));
            }
            if contains_str(bt, y) {
                let w = choose|w: int| 0 <= w < bt.len() && bt[w] == y;
                assert(b[w + 1] == y);
                assert(contains_str(b, y));
                assert(contains_str(a, y));
                let v = choose|v: int| 0 <= v < a.len() && a[v] == y;
                if v == 0 {
                    assert(y == b[0]);
                    assert(str_lt(b[0], b[w + 1]));
                    assert(false);
                }
                assert(at[v - 1] == y);
                assert(contains_str(at, y));
            }
        }
        lemma_sorted_unique_eq(at, bt);
        assert forall|p: int| 0 <= p < a.len() implies a[p] == b[p] by {
            if p > 0 {
                assert(at[p - 1] == bt[p - 1]);
            }
        }
        assert(at.len() == bt.len());
        assert(a =~= b);
    }
}

} // verus!
