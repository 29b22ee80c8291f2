//! The numeric-aware ordering of files within a directory group: extraction
//! of the first digit run of a name, the comparator built on it, and the
//! sort that the grouping applies, together with the laws that make the
//! comparator a sound sort key.

use vstd::prelude::*;

verus! {

use crate::strutil::{
    chars_of,
    digit_pred,
    first_where,
    lemma_first_where,
    lemma_first_where_unique,
    spec_is_digit,
    spec_stem,
    stem_of,
    str_eq,
};

/// Value of a run of ASCII digits read as a decimal number, most
/// significant digit first.
pub open spec fn digits_val(s: Seq<char>) -> nat
    decreases s.len(),
{
    if s.len() == 0 {
        0
    } else {
        digits_val(s.drop_last()) * 10 + ((s.last() as u32 - 48) as nat)
    }
}

/// Where the first digit run of `s` ends: the first non-digit at or after
/// `start`, or the end of `s`.
pub open spec fn digit_run_end(s: Seq<char>, start: int) -> int {
    let r = first_where(s.skip(start), crate::strutil::non_digit_pred());
    if r == -1 {
        s.len() as int
    } else {
        start + r
    }
}

/// The first maximal run of ASCII digits in `s`: its decimal value and its
/// length in digits. `None` when `s` has no digit, or when the value does
/// not fit in `usize` (such a run does not count as a number).
pub open spec fn spec_extract_first_number(s: Seq<char>) -> Option<(nat, nat)> {
    let st = first_where(s, digit_pred());
    if st == -1 {
        None
    } else {
        let run = s.subrange(st, digit_run_end(s, st));
        if digits_val(run) <= usize::MAX as nat {
            Some((digits_val(run), run.len()))
        } else {
            None
        }
    }
}

/// A prefix of a digit run never reads as a larger number than the run.
proof fn lemma_digits_val_prefix_le(run: Seq<char>, k: int)
    requires
        0 <= k <= run.len(),
    ensures
        digits_val(run.subrange(0, k)) <= digits_val(run),
    decreases run.len() - k,
{
    if k == run.len() {
        assert(run.subrange(0, k) =~= run);
    } else {
        assert(run.subrange(0, k + 1).drop_last() =~= run.subrange(0, k));
        assert(run.subrange(0, k + 1).last() == run[k]);
        let v = digits_val(run.subrange(0, k));
        assert(v <= v * 10);
        lemma_digits_val_prefix_le(run, k + 1);
    }
}

/// Extracts the first contiguous digit substring from `s`: its numeric
/// value and its digit length, or `None` if `s` holds no digits or the
/// value overflows `usize`.
pub fn extract_first_number(s: &str) -> (r: Option<(usize, usize)>)
    ensures
        match r {
            Some(p) => spec_extract_first_number(s@) == Some((p.0 as nat, p.1 as nat)),
            None => spec_extract_first_number(s@) is None,
        },
{
    let cs = chars_of(s);
    let n = cs.len();
    let mut i: usize = 0;
    while i < n && !(48 <= cs[i] as u32 && cs[i] as u32 <= 57)
        invariant
            n == cs@.len(),
            cs@ == s@,
            i <= n,
            forall|j: int| 0 <= j < i ==> !spec_is_digit(#[trigger] cs@[j]),
        decreases n - i,
    {
        i = i + 1;
    }
    if i == n {
        proof {
            assert(forall|j: int| 0 <= j < s@.len() ==> !(digit_pred()(#[trigger] s@[j])));
            lemma_first_where(s@, digit_pred());
        }
        return None;
    }
    let start = i;
    proof {
        assert(digit_pred()(s@[start as int]));
        assert(forall|j: int| 0 <= j < start ==> !(digit_pred()(#[trigger] s@[j])));
        lemma_first_where_unique(s@, digit_pred(), start as int);
    }
    while i < n && 48 <= cs[i] as u32 && cs[i] as u32 <= 57
        invariant
            n == cs@.len(),
            cs@ == s@,
            start <= i <= n,
            forall|j: int| start <= j < i ==> spec_is_digit(#[trigger] cs@[j]),
        decreases n - i,
    {
        i = i + 1;
    }
    let end = i;
    proof {
        let tail = s@.skip(start as int);
        let p = crate::strutil::non_digit_pred();
        if end == n {
            assert forall|j: int| 0 <= j < tail.len() implies !p(#[trigger] tail[j]) by {
                assert(tail[j] == s@[j + start]);
            }
            lemma_first_where(tail, p);
            assert(digit_run_end(s@, start as int) == n as int);
        } else {
            assert(p(tail[end - start])) by {
                assert(tail[end - start] == s@[end as int]);
            }
            assert forall|j: int| 0 <= j < end - start implies !p(#[trigger] tail[j]) by {
                assert(tail[j] == s@[j + start]);
            }
            lemma_first_where_unique(tail, p, end - start);
            assert(digit_run_end(s@, start as int) == end as int);
        }
    }
    let ghost run = s@.subrange(start as int, end as int);
    let mut acc: usize = 0;
    let mut j = start;
    while j < end
        invariant
            n == cs@.len(),
            cs@ == s@,
            start <= j <= end <= n,
            forall|k: int| start <= k < end ==> spec_is_digit(#[trigger] cs@[k]),
            run == s@.subrange(start as int, end as int),
            first_where(s@, digit_pred()) == start as int,
            digit_run_end(s@, start as int) == end as int,
            acc as nat == digits_val(s@.subrange(start as int, j as int)),
        decreases end - j,
    {
        let c = cs[j];
        let cv = c as u32;
        assert(48 <= cv && cv <= 57);
        let d = (cv - 48) as usize;
        proof {
            assert(s@.subrange(start as int, j + 1).drop_last() =~= s@.subrange(
                start as int,
                j as int,
            ));
            assert(s@.subrange(start as int, j + 1).last() == s@[j as int]);
        }
        if acc > (usize::MAX - d) / 10 {
            proof {
                vstd::arithmetic::div_mod::lemma_fundamental_div_mod(
                    (usize::MAX - d) as int,
                    10,
                );
                assert(acc * 10 + d > usize::MAX);
                assert(digits_val(s@.subrange(start as int, j + 1)) > usize::MAX as nat);
                assert(run.subrange(0, j + 1 - start) =~= s@.subrange(start as int, j + 1));
                lemma_digits_val_prefix_le(run, j + 1 - start);
                assert(digits_val(run) > usize::MAX as nat);
            }
            return None;
        }
        proof {
            vstd::arithmetic::div_mod::lemma_fundamental_div_mod((usize::MAX - d) as int, 10);
            assert(acc * 10 + d <= usize::MAX);
        }
        acc = acc * 10 + d;
        j = j + 1;
    }
    proof {
        assert(run =~= s@.subrange(start as int, j as int));
        assert(acc as nat == digits_val(run));
    }
    Some((acc, end - start))
}

/// Lexicographic order on character sequences by Unicode scalar value,
/// the fallback when neither name holds a number.
pub open spec fn lex_le(a: Seq<char>, b: Seq<char>) -> bool
    decreases a.len(),
{
    if a.len() == 0 {
        true
    } else if b.len() == 0 {
        false
    } else if (a[0] as u32) < (b[0] as u32) {
        true
    } else if (a[0] as u32) > (b[0] as u32) {
        false
    } else {
        lex_le(a.skip(1), b.skip(1))
    }
}

/// Strict order on the numeric keys of two stems: a smaller first number
/// comes first; on an equal value the longer digit run (the zero padding)
/// comes first; a stem with a number comes before one with none.
pub open spec fn key_lt(ka: Option<(nat, nat)>, kb: Option<(nat, nat)>) -> bool {
    match (ka, kb) {
        (Some(x), Some(y)) => x.0 < y.0 || (x.0 == y.0 && x.1 > y.1),
        (Some(_), None) => true,
        _ => false,
    }
}

/// The track comparator on file stems: the numeric keys decide first;
/// stems whose keys tie are ordered lexicographically, so that no pair of
/// distinct stems is left to traversal order.
pub open spec fn name_le(a: Seq<char>, b: Seq<char>) -> bool {
    let ka = spec_extract_first_number(a);
    let kb = spec_extract_first_number(b);
    if ka == kb {
        lex_le(a, b)
    } else {
        key_lt(ka, kb)
    }
}

/// The order on full paths that the grouping sorts by: the comparator on
/// the stems, and the full path lexicographically when even the stems are
/// equal, so that the order never falls back to traversal order.
pub open spec fn track_le(a: Seq<char>, b: Seq<char>) -> bool {
    if spec_stem(a) == spec_stem(b) {
        lex_le(a, b)
    } else {
        name_le(spec_stem(a), spec_stem(b))
    }
}

/// The lexicographic fallback relates every pair of names.
pub proof fn lemma_lex_le_total(a: Seq<char>, b: Seq<char>)
    ensures
        lex_le(a, b) || lex_le(b, a),
    decreases a.len(),
{
    if a.len() == 0 || b.len() == 0 {
    } else if (a[0] as u32) == (b[0] as u32) {
        lemma_lex_le_total(a.skip(1), b.skip(1));
    }
}

/// The lexicographic fallback is transitive.
pub proof fn lemma_lex_le_trans(a: Seq<char>, b: Seq<char>, c: Seq<char>)
    requires
        lex_le(a, b),
        lex_le(b, c),
    ensures
        lex_le(a, c),
    decreases a.len(),
{
    if a.len() == 0 {
    } else {
        // lex_le(a, b) with a nonempty forces b nonempty, and likewise for c.
        assert(b.len() > 0);
        assert(c.len() > 0);
        if (a[0] as u32) == (b[0] as u32) && (b[0] as u32) == (c[0] as u32) {
            lemma_lex_le_trans(a.skip(1), b.skip(1), c.skip(1));
        }
    }
}

/// Two characters with one scalar value are one character.
proof fn lemma_char_cast_injective(x: char, y: char)
    requires
        x as u32 == y as u32,
    ensures
        x == y,
{
}

/// Two names each no later than the other are the same name: the
/// lexicographic fallback leaves no two distinct names tied.
pub proof fn lemma_lex_le_antisymmetric(a: Seq<char>, b: Seq<char>)
    requires
        lex_le(a, b),
        lex_le(b, a),
    ensures
        a == b,
    decreases a.len(),
{
    if a.len() == 0 {
        // lex_le(b, a) with `a` empty forces `b` empty.
        assert(b.len() == 0);
        assert(a =~= b);
    } else {
        assert(b.len() > 0);
        let x = a[0] as u32;
        let y = b[0] as u32;
        if x < y {
            assert(!lex_le(b, a));
        }
        if x > y {
            assert(!lex_le(a, b));
        }
        assert(x == y);
        lemma_char_cast_injective(a[0], b[0]);
        assert(a[0] == b[0]);
        lemma_lex_le_antisymmetric(a.skip(1), b.skip(1));
        assert(a.skip(1).len() == b.skip(1).len());
        assert(a.len() == b.len());
        assert forall|j: int| 0 <= j < a.len() implies a[j] == b[j] by {
            if j >= 1 {
                assert(a[j] == a.skip(1)[j - 1]);
                assert(b[j] == b.skip(1)[j - 1]);
            }
        }
        assert(a =~= b);
    }
}

/// The key order is strict: it never holds both ways, and keys it relates
/// are distinct.
proof fn lemma_key_lt_asym(ka: Option<(nat, nat)>, kb: Option<(nat, nat)>)
    requires
        key_lt(ka, kb),
    ensures
        !key_lt(kb, ka),
        ka != kb,
{
}

/// The key order is transitive.
proof fn lemma_key_lt_trans(ka: Option<(nat, nat)>, kb: Option<(nat, nat)>, kc: Option<
    (nat, nat),
>)
    requires
        key_lt(ka, kb),
        key_lt(kb, kc),
    ensures
        key_lt(ka, kc),
{
}

/// The comparator relates every pair of names: no two files are left to
/// filesystem order.
pub proof fn lemma_name_le_total(a: Seq<char>, b: Seq<char>)
    ensures
        name_le(a, b) || name_le(b, a),
{
    let ka = spec_extract_first_number(a);
    let kb = spec_extract_first_number(b);
    if ka == kb {
        lemma_lex_le_total(a, b);
    }
}

/// The comparator is transitive.
pub proof fn lemma_name_le_trans(a: Seq<char>, b: Seq<char>, c: Seq<char>)
    requires
        name_le(a, b),
        name_le(b, c),
    ensures
        name_le(a, c),
{
    let ka = spec_extract_first_number(a);
    let kb = spec_extract_first_number(b);
    let kc = spec_extract_first_number(c);
    if ka == kb && kb == kc {
        lemma_lex_le_trans(a, b, c);
    } else if ka == kb {
        lemma_key_lt_asym(ka, kc);
    } else if kb == kc {
        lemma_key_lt_asym(ka, kc);
    } else {
        lemma_key_lt_trans(ka, kb, kc);
        lemma_key_lt_asym(ka, kc);
    }
}

/// The comparator orders every pair of distinct stems strictly: a tie
/// means the stems are the same.
pub proof fn lemma_name_le_antisymmetric(a: Seq<char>, b: Seq<char>)
    requires
        name_le(a, b),
        name_le(b, a),
    ensures
        a == b,
{
    let ka = spec_extract_first_number(a);
    let kb = spec_extract_first_number(b);
    if ka == kb {
        lemma_lex_le_antisymmetric(a, b);
    } else {
        lemma_key_lt_asym(ka, kb);
    }
}

/// Totality of the path order.
pub proof fn lemma_track_le_total(a: Seq<char>, b: Seq<char>)
    ensures
        track_le(a, b) || track_le(b, a),
{
    if spec_stem(a) == spec_stem(b) {
        lemma_lex_le_total(a, b);
    } else {
        lemma_name_le_total(spec_stem(a), spec_stem(b));
    }
}

/// Transitivity of the path order.
pub proof fn lemma_track_le_trans(a: Seq<char>, b: Seq<char>, c: Seq<char>)
    requires
        track_le(a, b),
        track_le(b, c),
    ensures
        track_le(a, c),
{
    let sa = spec_stem(a);
    let sb = spec_stem(b);
    let sc = spec_stem(c);
    if sa == sb && sb == sc {
        lemma_lex_le_trans(a, b, c);
    } else if sa == sb {
    } else if sb == sc {
    } else {
        lemma_name_le_trans(sa, sb, sc);
        if sa == sc {
            lemma_name_le_antisymmetric(sa, sb);
        }
    }
}

/// The path order leaves no two distinct paths tied: a tie means the two
/// paths are the same, so within a group only identical entries can swap,
/// and the sorted order does not depend on traversal order.
pub proof fn lemma_track_le_antisymmetric(a: Seq<char>, b: Seq<char>)
    requires
        track_le(a, b),
        track_le(b, a),
    ensures
        a == b,
{
    if spec_stem(a) == spec_stem(b) {
        lemma_lex_le_antisymmetric(a, b);
    } else {
        lemma_name_le_antisymmetric(spec_stem(a), spec_stem(b));
    }
}

/// Decides `lex_le` on two stems.
fn lex_le_exec(a: &Vec<char>, b: &Vec<char>) -> (r: bool)
    ensures
        r == lex_le(a@, b@),
{
    let an = a.len();
    let bn = b.len();
    let mut i: usize = 0;
    proof {
        assert(a@.skip(0) =~= a@);
        assert(b@.skip(0) =~= b@);
    }
    while i < an && i < bn && (a[i] as u32) == (b[i] as u32)
        invariant
            an == a@.len(),
            bn == b@.len(),
            i <= an,
            i <= bn,
            lex_le(a@, b@) == lex_le(a@.skip(i as int), b@.skip(i as int)),
        decreases an - i,
    {
        proof {
            assert(a@.skip(i as int).skip(1) =~= a@.skip(i + 1));
            assert(b@.skip(i as int).skip(1) =~= b@.skip(i + 1));
            assert(a@.skip(i as int)[0] == a@[i as int]);
            assert(b@.skip(i as int)[0] == b@[i as int]);
        }
        i = i + 1;
    }
    proof {
        if i < an {
            assert(a@.skip(i as int)[0] == a@[i as int]);
        }
        if i < bn {
            assert(b@.skip(i as int)[0] == b@[i as int]);
        }
    }
    if i == an {
        true
    } else if i == bn {
        false
    } else {
        (a[i] as u32) < (b[i] as u32)
    }
}

/// Decides the comparator on two stems.
pub fn name_le_exec(a: &str, b: &str) -> (r: bool)
    ensures
        r == name_le(a@, b@),
{
    let ka = extract_first_number(a);
    let kb = extract_first_number(b);
    let keys_equal = match (&ka, &kb) {
        (Some(x), Some(y)) => x.0 == y.0 && x.1 == y.1,
        (None, None) => true,
        _ => false,
    };
    if keys_equal {
        let ac = chars_of(a);
        let bc = chars_of(b);
        lex_le_exec(&ac, &bc)
    } else {
        match (ka, kb) {
            (Some(x), Some(y)) => x.0 < y.0 || (x.0 == y.0 && x.1 > y.1),
            (Some(_), None) => true,
            _ => false,
        }
    }
}

/// Decides the path order: the comparator on the two stems, the whole
/// path when the stems are equal.
pub fn track_le_exec(a: &str, b: &str) -> (r: bool)
    ensures
        r == track_le(a@, b@),
{
    let sa = stem_of(a);
    let sb = stem_of(b);
    if str_eq(sa, sb) {
        let ac = chars_of(a);
        let bc = chars_of(b);
        lex_le_exec(&ac, &bc)
    } else {
        name_le_exec(sa, sb)
    }
}

/// The group's file sequence is ordered by the track comparator.
pub open spec fn sorted_by_track(s: Seq<String>) -> bool {
    forall|i: int, j: int| 0 <= i < j < s.len() ==> track_le(#[trigger] s[i]@, #[trigger] s[j]@)
}

/// Inserting at `at` adds one occurrence to the sequence's multiset.
proof fn lemma_insert_to_multiset(s: Seq<String>, at: int, x: String)
    requires
        0 <= at <= s.len(),
    ensures
        s.insert(at, x).to_multiset() == s.to_multiset().insert(x),
{
    broadcast use vstd::seq_lib::group_to_multiset_ensures;

    let t = s.insert(at, x);
    assert(t.remove(at) =~= s);
    assert(t.remove(at).to_multiset() == t.to_multiset().remove(t[at]));
    assert(t[at] == x);
    assert(t.to_multiset().count(x) >= 1) by {
        assert(t.contains(x));
    }
    assert(t.to_multiset().remove(x).insert(x) =~= t.to_multiset());
    assert(s.to_multiset().insert(x) =~= t.to_multiset());
}

/// Sorts the files of one directory group by the track comparator.
/// The result is ordered, holds exactly the old files, and an already
/// ordered group comes back unchanged, so sorting is idempotent.
pub fn sort_files(files: &mut Vec<String>)
    ensures
        sorted_by_track(final(files)@),
        final(files)@.to_multiset() == old(files)@.to_multiset(),
        sorted_by_track(old(files)@) ==> final(files)@ == old(files)@,
{
    let n = files.len();
    if n == 0 {
        return ;
    }
    let mut i: usize = 1;
    while i < n
        invariant
            n == files@.len(),
            1 <= i <= n,
            sorted_by_track(files@.take(i as int)),
            files@.to_multiset() == old(files)@.to_multiset(),
            sorted_by_track(old(files)@) ==> files@ == old(files)@,
        decreases n - i,
    {
        let mut j: usize = i;
        proof {
            assert forall|p: int, q: int| 0 <= p < q <= i && p != j && q != j implies track_le(
                #[trigger] files@[p]@,
                #[trigger] files@[q]@,
            ) by {
                assert(files@.take(i as int)[p] == files@[p]);
                assert(files@.take(i as int)[q] == files@[q]);
            }
        }
        while j > 0 && !track_le_exec(files[j - 1].as_str(), files[j].as_str())
            invariant
                n == files@.len(),
                0 <= j <= i < n,
                files@.to_multiset() == old(files)@.to_multiset(),
                sorted_by_track(old(files)@) ==> files@ == old(files)@,
                forall|p: int, q: int|
                    0 <= p < q <= i && p != j && q != j ==> track_le(
                        #[trigger] files@[p]@,
                        #[trigger] files@[q]@,
                    ),
                forall|q: int| j < q <= i ==> track_le(files@[j as int]@, #[trigger] files@[q]@),
            decreases j,
        {
            proof {
                if sorted_by_track(old(files)@) {
                    // An ordered input never enters this body.
                    assert(track_le(files@[j - 1]@, files@[j as int]@));
                    assert(false);
                }
            }
            let ghost pre = files@;
            let moved = files.remove(j);
            files.insert(j - 1, moved);
            proof {
                broadcast use vstd::seq_lib::group_to_multiset_ensures;

                lemma_insert_to_multiset(pre.remove(j as int), j - 1, pre[j as int]);
                assert(files@.to_multiset() == pre.to_multiset());
                // The swap: positions j-1 and j exchanged, the rest fixed.
                assert(files@[j - 1] == pre[j as int]);
                assert(files@[j as int] == pre[j - 1]) by {
                    assert(files@ == pre.remove(j as int).insert(j - 1, pre[j as int]));
                }
                assert(forall|k: int|
                    0 <= k < n && k != j - 1 && k != j ==> #[trigger] files@[k] == pre[k]);
                lemma_track_le_total(pre[j - 1]@, pre[j as int]@);
                assert(track_le(files@[j - 1]@, files@[j as int]@));
                assert forall|q: int| j - 1 < q <= i implies track_le(
                    files@[j - 1]@,
                    #[trigger] files@[q]@,
                ) by {
                    if q > j {
                        lemma_track_le_trans(pre[j as int]@, pre[j - 1]@, pre[q]@);
                    }
                }
            }
            j = j - 1;
        }
        proof {
            // On exit the prefix through i is ordered again.
            if j > 0 {
                assert(track_le(files@[j - 1]@, files@[j as int]@));
            }
            assert forall|p: int, q: int| 0 <= p < q <= i implies track_le(
                #[trigger] files@[p]@,
                #[trigger] files@[q]@,
            ) by {
                if q == j && j > 0 {
                    if p < j - 1 {
                        lemma_track_le_trans(files@[p]@, files@[j - 1]@, files@[j as int]@);
                    }
                } else if p == j && j > 0 {
                    if j < q {
                        assert(track_le(files@[j as int]@, files@[q]@));
                    }
                }
            }
            assert(sorted_by_track(files@.take(i + 1))) by {
                assert(forall|p: int, q: int|
                    0 <= p < q < i + 1 ==> track_le(
                        #[trigger] files@.take(i + 1)[p]@,
                        #[trigger] files@.take(i + 1)[q]@,
                    ));
            }
        }
        i = i + 1;
    }
    proof {
        if n > 0 {
            assert(files@.take(n as int) =~= files@);
        }
    }
}

} // verus!
