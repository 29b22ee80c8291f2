//! Character and string helpers shared by the discovery, ordering and
//! resolver modules. Strings are reasoned about through their `Seq<char>`
//! views; the executable code walks them one character at a time.

use vstd::prelude::*;

verus! {

/// ASCII decimal digit.
pub open spec fn spec_is_digit(c: char) -> bool {
    48 <= c as u32 && c as u32 <= 57
}

/// Unicode white space, the set honoured by `str::trim`.
pub open spec fn spec_is_ws(c: char) -> bool {
    let v = c as u32;
    ||| (9 <= v && v <= 13)
    ||| v == 32
    ||| v == 0x85
    ||| v == 0xa0
    ||| v == 0x1680
    ||| (0x2000 <= v && v <= 0x200a)
    ||| v == 0x2028
    ||| v == 0x2029
    ||| v == 0x202f
    ||| v == 0x205f
    ||| v == 0x3000
}

pub fn is_ws(c: char) -> (r: bool)
    ensures
        r == spec_is_ws(c),
{
    let v = c as u32;
    (9 <= v && v <= 13) || v == 32 || v == 0x85 || v == 0xa0 || v == 0x1680 || (0x2000 <= v && v
        <= 0x200a) || v == 0x2028 || v == 0x2029 || v == 0x202f || v == 0x205f || v == 0x3000
}

/// Index of the first character satisfying `p`, or -1 if there is none.
pub open spec fn first_where(s: Seq<char>, p: spec_fn(char) -> bool) -> int
    decreases s.len(),
{
    if s.len() == 0 {
        -1
    } else if p(s[0]) {
        0
    } else {
        let r = first_where(s.skip(1), p);
        if r == -1 {
            -1
        } else {
            r + 1
        }
    }
}

/// Index of the last character satisfying `p`, or -1 if there is none.
pub open spec fn last_where(s: Seq<char>, p: spec_fn(char) -> bool) -> int
    decreases s.len(),
{
    if s.len() == 0 {
        -1
    } else if p(s.last()) {
        s.len() - 1
    } else {
        last_where(s.drop_last(), p)
    }
}

pub proof fn lemma_first_where(s: Seq<char>, p: spec_fn(char) -> bool)
    ensures
        first_where(s, p) == -1 <==> (forall|j: int| 0 <= j < s.len() ==> !p(#[trigger] s[j])),
        first_where(s, p) != -1 ==> 0 <= first_where(s, p) < s.len() && p(s[first_where(s, p)])
            && (forall|j: int| 0 <= j < first_where(s, p) ==> !p(#[trigger] s[j])),
    decreases s.len(),
{
    if s.len() == 0 {
    } else if p(s[0]) {
    } else {
        lemma_first_where(s.skip(1), p);
        let r = first_where(s.skip(1), p);
        if r == -1 {
            assert forall|j: int| 0 <= j < s.len() implies !p(#[trigger] s[j]) by {
                if j > 0 {
                    assert(s.skip(1)[j - 1] == s[j]);
                    assert(!p(s.skip(1)[j - 1]));
                }
            }
        } else {
            assert(s.skip(1)[r] == s[r + 1]);
            assert(p(s[r + 1]));
            assert forall|j: int| 0 <= j < r + 1 implies !p(#[trigger] s[j]) by {
                if j > 0 {
                    assert(s.skip(1)[j - 1] == s[j]);
                    assert(!p(s.skip(1)[j - 1]));
                }
            }
        }
    }
}

/// If `k` is a position where `p` first holds, it is `first_where`.
pub proof fn lemma_first_where_unique(s: Seq<char>, p: spec_fn(char) -> bool, k: int)
    requires
        0 <= k < s.len(),
        p(s[k]),
        forall|j: int| 0 <= j < k ==> !p(#[trigger] s[j]),
    ensures
        first_where(s, p) == k,
{
    lemma_first_where(s, p);
    let r = first_where(s, p);
    if r == -1 {
        assert(!p(s[k]));
    } else {
        if r < k {
            assert(!p(s[r]));
        }
        if k < r {
            assert(!p(s[k]));
        }
    }
}

pub proof fn lemma_last_where(s: Seq<char>, p: spec_fn(char) -> bool)
    ensures
        last_where(s, p) == -1 <==> (forall|j: int| 0 <= j < s.len() ==> !p(#[trigger] s[j])),
        last_where(s, p) != -1 ==> 0 <= last_where(s, p) < s.len() && p(s[last_where(s, p)])
            && (forall|j: int| last_where(s, p) < j < s.len() ==> !p(#[trigger] s[j])),
    decreases s.len(),
{
    if s.len() == 0 {
    } else if p(s.last()) {
    } else {
        lemma_last_where(s.drop_last(), p);
        assert(forall|j: int| 0 <= j < s.drop_last().len() ==> s.drop_last()[j] == s[j]);
        assert(s.last() == s[s.len() - 1]);
    }
}

pub proof fn lemma_last_where_unique(s: Seq<char>, p: spec_fn(char) -> bool, k: int)
    requires
        0 <= k < s.len(),
        p(s[k]),
        forall|j: int| k < j < s.len() ==> !p(#[trigger] s[j]),
    ensures
        last_where(s, p) == k,
{
    lemma_last_where(s, p);
    let r = last_where(s, p);
    if r == -1 {
        assert(!p(s[k]));
    } else {
        if r < k {
            assert(!p(s[k]));
        }
        if k < r {
            assert(!p(s[r]));
        }
    }
}

/// The digit predicate as a function value, so that every use names the
/// same function.
pub open spec fn digit_pred() -> spec_fn(char) -> bool {
    |c: char| spec_is_digit(c)
}

/// The non-digit predicate as a function value.
pub open spec fn non_digit_pred() -> spec_fn(char) -> bool {
    |c: char| !spec_is_digit(c)
}

/// Equality with a fixed character, as a function value.
pub open spec fn eq_pred(c: char) -> spec_fn(char) -> bool {
    |x: char| x == c
}

/// Position one past the last `/` of `p`, or 0 when it has none: where the
/// file name begins.
pub open spec fn spec_name_start(p: Seq<char>) -> int {
    last_where(p, eq_pred('/')) + 1
}

/// The final component of a path: everything after its last `/`.
pub open spec fn spec_file_name(p: Seq<char>) -> Seq<char> {
    p.subrange(spec_name_start(p), p.len() as int)
}

/// The file name without its extension. A name whose only `.` is its first
/// character, or that has none, is its own stem.
pub open spec fn spec_stem(p: Seq<char>) -> Seq<char> {
    let n = spec_file_name(p);
    let d = last_where(n, eq_pred('.'));
    if d <= 0 {
        n
    } else {
        n.subrange(0, d)
    }
}

/// The extension of the file name, if any: everything after the last `.`,
/// which must not be the name's first character.
pub open spec fn spec_extension(p: Seq<char>) -> Option<Seq<char>> {
    let n = spec_file_name(p);
    let d = last_where(n, eq_pred('.'));
    if d <= 0 {
        None
    } else {
        Some(n.subrange(d + 1, n.len() as int))
    }
}

/// The directory part of a path: what precedes the last `/`. A bare file
/// name has the empty parent; the root and the empty path have none.
pub open spec fn spec_parent(p: Seq<char>) -> Option<Seq<char>> {
    if p.len() == 0 || p =~= seq!['/'] {
        None
    } else {
        let k = last_where(p, eq_pred('/'));
        if k == -1 {
            Some(Seq::empty())
        } else if k == 0 {
            Some(seq!['/'])
        } else {
            Some(p.subrange(0, k))
        }
    }
}

/// Index of the last occurrence of `c`, scanning forward and keeping the
/// latest hit.
pub fn rfind_char(cs: &Vec<char>, c: char) -> (r: Option<usize>)
    ensures
        match r {
            Some(k) => last_where(cs@, eq_pred(c)) == k as int,
            None => last_where(cs@, eq_pred(c)) == -1,
        },
{
    let n = cs.len();
    let mut found: Option<usize> = None;
    let mut i: usize = 0;
    while i < n
        invariant
            n == cs@.len(),
            i <= n,
            match found {
                Some(k) => k < i && cs@[k as int] == c && (forall|j: int|
                    k < j < i ==> cs@[j] != c),
                None => forall|j: int| 0 <= j < i ==> cs@[j] != c,
            },
        decreases n - i,
    {
        if cs[i] == c {
            found = Some(i);
        }
        i = i + 1;
    }
    proof {
        let p = eq_pred(c);
        match found {
            Some(k) => {
                assert(p(cs@[k as int]));
                assert(forall|j: int| k < j < cs@.len() ==> !p(#[trigger] cs@[j]));
                lemma_last_where_unique(cs@, p, k as int);
            },
            None => {
                assert(forall|j: int| 0 <= j < cs@.len() ==> !p(#[trigger] cs@[j]));
                lemma_last_where(cs@, p);
            },
        }
    }
    found
}

/// Where the file name of `cs` begins: one past its last slash.
pub fn name_start_of(cs: &Vec<char>) -> (r: usize)
    ensures
        r as int == spec_name_start(cs@),
        r <= cs@.len(),
{
    let n = cs.len();
    match rfind_char(cs, '/') {
        Some(k) => {
            proof {
                lemma_last_where(cs@, eq_pred('/'));
                assert(k < n);
            }
            k + 1
        },
        None => 0,
    }
}

/// Whether two strings hold the same characters.
pub fn str_eq(a: &str, b: &str) -> (r: bool)
    ensures
        r == (a@ == b@),
{
    let an = a.unicode_len();
    let bn = b.unicode_len();
    if an != bn {
        return false;
    }
    let mut i: usize = 0;
    while i < an
        invariant
            an == a@.len(),
            an == b@.len(),
            i <= an,
            forall|j: int| 0 <= j < i ==> a@[j] == b@[j],
        decreases an - i,
    {
        if a.get_char(i) != b.get_char(i) {
            return false;
        }
        i = i + 1;
    }
    proof {
        assert(a@ =~= b@);
    }
    true
}

/// The characters of `s`, one per element.
pub fn chars_of(s: &str) -> (v: Vec<char>)
    ensures
        v@ == s@,
{
    let n = s.unicode_len();
    let mut v: Vec<char> = Vec::new();
    let mut i: usize = 0;
    while i < n
        invariant
            n == s@.len(),
            i <= n,
            v@ == s@.subrange(0, i as int),
        decreases n - i,
    {
        v.push(s.get_char(i));
        assert(v@ =~= s@.subrange(0, i + 1 as int));
        i = i + 1;
    }
    assert(v@ =~= s@);
    v
}

/// The file name of `path` without its extension, as a borrowed slice.
pub fn stem_of<'a>(path: &'a str) -> (r: &'a str)
    ensures
        r@ == spec_stem(path@),
{
    let cs = chars_of(path);
    let n = cs.len();
    let k0 = name_start_of(&cs);
    let ghost name = spec_file_name(path@);
    // Last '.' inside the name region, as an absolute index.
    let mut dot: Option<usize> = None;
    let mut i: usize = k0;
    while i < n
        invariant
            n == cs@.len(),
            cs@ == path@,
            k0 <= i <= n,
            match dot {
                Some(d) => k0 <= d < i && cs@[d as int] == '.' && (forall|j: int|
                    d < j < i ==> cs@[j] != '.'),
                None => forall|j: int| k0 <= j < i ==> cs@[j] != '.',
            },
        decreases n - i,
    {
        if cs[i] == '.' {
            dot = Some(i);
        }
        i = i + 1;
    }
    proof {
        let p = eq_pred('.');
        assert(name =~= cs@.subrange(k0 as int, n as int));
        match dot {
            Some(d) => {
                assert(name[d - k0] == cs@[d as int]);
                assert(p(name[d - k0]));
                assert forall|j: int| d - k0 < j < name.len() implies !p(#[trigger] name[j]) by {
                    assert(name[j] == cs@[j + k0]);
                }
                lemma_last_where_unique(name, p, d - k0);
            },
            None => {
                assert forall|j: int| 0 <= j < name.len() implies !p(#[trigger] name[j]) by {
                    assert(name[j] == cs@[j + k0]);
                }
                lemma_last_where(name, p);
            },
        }
    }
    match dot {
        Some(d) => {
            if d == k0 {
                let r = path.substring_char(k0, n);
                proof {
                    assert(r@ =~= spec_stem(path@));
                }
                r
            } else {
                let r = path.substring_char(k0, d);
                proof {
                    assert(r@ =~= spec_stem(path@));
                }
                r
            }
        },
        None => {
            let r = path.substring_char(k0, n);
            proof {
                assert(r@ =~= spec_stem(path@));
            }
            r
        },
    }
}

/// The extension of `path`'s file name, if it has one.
pub fn extension_of<'a>(path: &'a str) -> (r: Option<&'a str>)
    ensures
        match r {
            Some(e) => spec_extension(path@) == Some(e@),
            None => spec_extension(path@) is None,
        },
{
    let cs = chars_of(path);
    let n = cs.len();
    let k0 = name_start_of(&cs);
    let ghost name = spec_file_name(path@);
    let mut dot: Option<usize> = None;
    let mut i: usize = k0;
    while i < n
        invariant
            n == cs@.len(),
            cs@ == path@,
            k0 <= i <= n,
            match dot {
                Some(d) => k0 <= d < i && cs@[d as int] == '.' && (forall|j: int|
                    d < j < i ==> cs@[j] != '.'),
                None => forall|j: int| k0 <= j < i ==> cs@[j] != '.',
            },
        decreases n - i,
    {
        if cs[i] == '.' {
            dot = Some(i);
        }
        i = i + 1;
    }
    proof {
        let p = eq_pred('.');
        assert(name =~= cs@.subrange(k0 as int, n as int));
        match dot {
            Some(d) => {
                assert(name[d - k0] == cs@[d as int]);
                assert(p(name[d - k0]));
                assert forall|j: int| d - k0 < j < name.len() implies !p(#[trigger] name[j]) by {
                    assert(name[j] == cs@[j + k0]);
                }
                lemma_last_where_unique(name, p, d - k0);
            },
            None => {
                assert forall|j: int| 0 <= j < name.len() implies !p(#[trigger] name[j]) by {
                    assert(name[j] == cs@[j + k0]);
                }
                lemma_last_where(name, p);
            },
        }
    }
    match dot {
        Some(d) => {
            if d == k0 {
                None
            } else {
                let e = path.substring_char(d + 1, n);
                proof {
                    assert(e@ =~= name.subrange(d - k0 + 1, name.len() as int));
                }
                Some(e)
            }
        },
        None => None,
    }
}

/// The directory part of `path`, if it has one.
pub fn parent_of(path: &str) -> (r: Option<String>)
    ensures
        match r {
            Some(par) => spec_parent(path@) == Some(par@),
            None => spec_parent(path@) is None,
        },
{
    let cs = chars_of(path);
    let n = cs.len();
    if n == 0 {
        return None;
    }
    if n == 1 && cs[0] == '/' {
        proof {
            assert(path@ =~= seq!['/']);
        }
        return None;
    }
    proof {
        assert(!(path@ =~= seq!['/']));
    }
    match rfind_char(&cs, '/') {
        None => {
            let empty = String::new();
            proof {
                assert(empty@ =~= Seq::<char>::empty());
            }
            Some(empty)
        },
        Some(k) => {
            proof {
                lemma_last_where(cs@, eq_pred('/'));
                assert(k < n);
                assert(eq_pred('/')(cs@[k as int]));
                assert(cs@[k as int] == '/');
            }
            if k == 0 {
                let root = path.substring_char(0, 1);
                proof {
                    assert(root@ =~= seq!['/']);
                }
                Some(root.to_owned())
            } else {
                let par = path.substring_char(0, k);
                Some(par.to_owned())
            }
        },
    }
}

/// The views of a sequence of strings.
pub open spec fn views(ss: Seq<String>) -> Seq<Seq<char>> {
    ss.map_values(|f: String| f@)
}

/// A line with its trailing carriage return removed, as line splitting
/// removes it before a line feed.
pub open spec fn chomp_cr(t: Seq<char>) -> Seq<char> {
    if t.len() > 0 && t.last() == '\r' {
        t.drop_last()
    } else {
        t
    }
}

/// The lines of `s`: split at each line feed, dropping a carriage return
/// that precedes one; a final line needs no line ending, and a trailing
/// line ending opens no empty last line.
pub open spec fn spec_lines(s: Seq<char>) -> Seq<Seq<char>>
    decreases s.len(),
    via spec_lines_decreases
{
    if s.len() == 0 {
        Seq::empty()
    } else {
        let i = first_where(s, eq_pred('\n'));
        if i == -1 {
            seq![s]
        } else {
            seq![chomp_cr(s.subrange(0, i))] + spec_lines(s.subrange(i + 1, s.len() as int))
        }
    }
}

#[via_fn]
proof fn spec_lines_decreases(s: Seq<char>) {
    if s.len() != 0 {
        lemma_first_where(s, eq_pred('\n'));
    }
}

/// Splits `s` into its lines.
pub fn split_lines(s: &str) -> (v: Vec<String>)
    ensures
        views(v@) == spec_lines(s@),
{
    let cs = chars_of(s);
    let n = cs.len();
    let mut out: Vec<String> = Vec::new();
    let mut pos: usize = 0;
    proof {
        assert(s@.skip(0) =~= s@);
    }
    while pos < n
        invariant
            cs@ == s@,
            n == cs@.len(),
            pos <= n,
            spec_lines(s@) == views(out@) + spec_lines(s@.skip(pos as int)),
        decreases n - pos,
    {
        let ghost rest = s@.skip(pos as int);
        let mut e = pos;
        while e < n && cs[e] != '\n'
            invariant
                cs@ == s@,
                n == cs@.len(),
                pos <= e <= n,
                forall|j: int| pos <= j < e ==> cs@[j] != '\n',
            decreases n - e,
        {
            e = e + 1;
        }
        if e == n {
            proof {
                let p = eq_pred('\n');
                assert forall|j: int| 0 <= j < rest.len() implies !p(#[trigger] rest[j]) by {
                    assert(rest[j] == s@[j + pos]);
                }
                lemma_first_where(rest, p);
                assert(spec_lines(rest) == seq![rest]);
            }
            let line = s.substring_char(pos, n);
            out.push(line.to_owned());
            proof {
                assert(line@ =~= rest);
                assert(views(out@) =~= spec_lines(s@)) by {
                    assert(s@.skip(n as int) =~= Seq::<char>::empty());
                    assert(spec_lines(s@.skip(n as int)) =~= Seq::<Seq<char>>::empty());
                }
            }
            pos = n;
        } else {
            proof {
                let p = eq_pred('\n');
                assert(p(rest[e - pos])) by {
                    assert(rest[e - pos] == s@[e as int]);
                }
                assert forall|j: int| 0 <= j < e - pos implies !p(#[trigger] rest[j]) by {
                    assert(rest[j] == s@[j + pos]);
                }
                lemma_first_where_unique(rest, p, e - pos);
            }
            let cut = if e > pos && cs[e - 1] == '\r' {
                e - 1
            } else {
                e
            };
            let line = s.substring_char(pos, cut);
            out.push(line.to_owned());
            let ghost pre_pos = pos as int;
            pos = e + 1;
            proof {
                assert(rest.subrange(0, e - pre_pos) =~= s@.subrange(pre_pos, e as int));
                assert(line@ =~= chomp_cr(rest.subrange(0, e - pre_pos))) by {
                    if e > pre_pos && s@[e - 1] == '\r' {
                        assert(rest.subrange(0, e - pre_pos).last() == '\r');
                        assert(line@ =~= rest.subrange(0, e - pre_pos).drop_last());
                    } else {
                        if rest.subrange(0, e - pre_pos).len() > 0 {
                            assert(rest.subrange(0, e - pre_pos).last() == s@[e - 1]);
                        }
                    }
                }
                assert(rest.subrange(e - pre_pos + 1, rest.len() as int) =~= s@.skip(pos as int));
                assert(spec_lines(rest) == seq![chomp_cr(rest.subrange(0, e - pre_pos))]
                    + spec_lines(s@.skip(pos as int)));
                assert(views(out@) + spec_lines(s@.skip(pos as int)) =~= spec_lines(s@));
            }
        }
    }
    proof {
        assert(s@.skip(n as int) =~= Seq::<char>::empty());
        assert(views(out@) =~= spec_lines(s@));
    }
    out
}

/// What is left of `s` once its leading white space goes.
pub open spec fn trim_front(s: Seq<char>) -> Seq<char>
    decreases s.len(),
{
    if s.len() > 0 && spec_is_ws(s[0]) {
        trim_front(s.skip(1))
    } else {
        s
    }
}

/// What is left of `s` once its trailing white space goes.
pub open spec fn trim_back(s: Seq<char>) -> Seq<char>
    decreases s.len(),
{
    if s.len() > 0 && spec_is_ws(s.last()) {
        trim_back(s.drop_last())
    } else {
        s
    }
}

/// `s` without leading and trailing white space.
pub open spec fn spec_trim(s: Seq<char>) -> Seq<char> {
    trim_back(trim_front(s))
}

/// Trims white space from both ends of `s`.
pub fn trim_str<'a>(s: &'a str) -> (r: &'a str)
    ensures
        r@ == spec_trim(s@),
{
    let cs = chars_of(s);
    let n = cs.len();
    let mut lo: usize = 0;
    proof {
        assert(s@.skip(0) =~= s@);
    }
    while lo < n && is_ws(cs[lo])
        invariant
            cs@ == s@,
            n == cs@.len(),
            lo <= n,
            trim_front(s@) == trim_front(s@.skip(lo as int)),
        decreases n - lo,
    {
        proof {
            assert(s@.skip(lo as int)[0] == s@[lo as int]);
            assert(s@.skip(lo as int).skip(1) =~= s@.skip(lo + 1));
        }
        lo = lo + 1;
    }
    proof {
        if lo < n {
            assert(s@.skip(lo as int)[0] == s@[lo as int]);
        }
        assert(trim_front(s@) == s@.skip(lo as int));
    }
    let mut hi: usize = n;
    while hi > lo && is_ws(cs[hi - 1])
        invariant
            cs@ == s@,
            n == cs@.len(),
            lo <= hi <= n,
            trim_front(s@) == s@.skip(lo as int),
            trim_back(s@.skip(lo as int)) == trim_back(s@.subrange(lo as int, hi as int)),
        decreases hi,
    {
        proof {
            let t = s@.subrange(lo as int, hi as int);
            assert(t.last() == s@[hi - 1]);
            assert(t.drop_last() =~= s@.subrange(lo as int, hi - 1));
        }
        hi = hi - 1;
    }
    proof {
        let t = s@.subrange(lo as int, hi as int);
        if hi > lo {
            assert(t.last() == s@[hi - 1]);
        }
        assert(trim_back(t) == t);
        assert(s@.skip(lo as int) =~= s@.subrange(lo as int, n as int));
    }
    let r = s.substring_char(lo, hi);
    proof {
        assert(r@ =~= spec_trim(s@));
    }
    r
}

/// Index of the first occurrence of `p` at or after `i`, or -1.
pub open spec fn find_from(s: Seq<char>, p: Seq<char>, i: int) -> int
    decreases s.len() - i,
    when 0 <= i <= s.len()
{
    if i + p.len() > s.len() {
        -1
    } else if matches_at(s, p, i) {
        i
    } else if i == s.len() {
        -1
    } else {
        find_from(s, p, i + 1)
    }
}

/// Index of the first occurrence of `p` in `s`, or -1.
pub open spec fn spec_find(s: Seq<char>, p: Seq<char>) -> int {
    find_from(s, p, 0)
}

/// Finds the first occurrence of `p` in `cs`.
pub fn find_sub(cs: &Vec<char>, p: &Vec<char>) -> (r: Option<usize>)
    ensures
        match r {
            Some(i) => spec_find(cs@, p@) == i as int && matches_at(cs@, p@, i as int),
            None => spec_find(cs@, p@) == -1,
        },
{
    let n = cs.len();
    let m = p.len();
    if m > n {
        return None;
    }
    if m == 0 {
        proof {
            assert(cs@.subrange(0, 0) =~= p@);
        }
        return Some(0);
    }
    let mut i: usize = 0;
    while i <= n - m
        invariant
            n == cs@.len(),
            m == p@.len(),
            1 <= m <= n,
            i <= n - m + 1,
            find_from(cs@, p@, 0) == find_from(cs@, p@, i as int),
        decreases n - i,
    {
        if region_matches(cs, i, p) {
            return Some(i);
        }
        proof {
            assert(find_from(cs@, p@, i as int) == find_from(cs@, p@, i + 1));
        }
        i = i + 1;
    }
    proof {
        assert(find_from(cs@, p@, i as int) == -1);
    }
    None
}

/// `p` occurs in `s` starting at position `i`.
pub open spec fn matches_at(s: Seq<char>, p: Seq<char>, i: int) -> bool {
    0 <= i && i + p.len() <= s.len() && s.subrange(i, i + p.len()) == p
}

/// Whether `s` begins with `p`.
pub open spec fn spec_starts_with(s: Seq<char>, p: Seq<char>) -> bool {
    matches_at(s, p, 0)
}

/// Whether the characters of `p` occur in `s` starting at `i`.
pub fn region_matches(s: &Vec<char>, i: usize, p: &Vec<char>) -> (r: bool)
    requires
        i + p@.len() <= s@.len(),
    ensures
        r == matches_at(s@, p@, i as int),
{
    let n = s.len();
    let m = p.len();
    let mut j: usize = 0;
    while j < m
        invariant
            n == s@.len(),
            m == p@.len(),
            j <= m,
            i + m <= n,
            forall|k: int| 0 <= k < j ==> s@[i + k] == p@[k],
        decreases m - j,
    {
        if s[i + j] != p[j] {
            assert(s@.subrange(i as int, i + p@.len()) != p@) by {
                assert(s@.subrange(i as int, i + p@.len())[j as int] == s@[i + j]);
            }
            return false;
        }
        j = j + 1;
    }
    assert(s@.subrange(i as int, i + p@.len()) =~= p@);
    true
}

} // verus!
