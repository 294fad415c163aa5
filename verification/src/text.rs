//! Character-level text helpers. Strings are modelled by their `Seq<char>`
//! view; every helper states its result over that model.
use vstd::prelude::*;

verus! {

/// `pat` occurs in `s` starting at character index `i`.
pub open spec fn occurs_at(s: Seq<char>, pat: Seq<char>, i: int) -> bool {
    0 <= i && i + pat.len() <= s.len() && s.subrange(i, i + pat.len()) == pat
}

/// `pat` occurs somewhere in `s`.
pub open spec fn contains_text(s: Seq<char>, pat: Seq<char>) -> bool {
    exists|i: int| occurs_at(s, pat, i)
}

/// The first index at or after `start` where `pat` occurs.
pub open spec fn find_from(s: Seq<char>, pat: Seq<char>, start: int) -> Option<int>
    decreases s.len() + 1 - start,
{
    if start < 0 || start + pat.len() > s.len() {
        None
    } else if occurs_at(s, pat, start) {
        Some(start)
    } else {
        find_from(s, pat, start + 1)
    }
}

/// The first index where `pat` occurs in `s`.
pub open spec fn find_text(s: Seq<char>, pat: Seq<char>) -> Option<int> {
    find_from(s, pat, 0)
}

/// `s` begins with `p`.
pub open spec fn starts_with(s: Seq<char>, p: Seq<char>) -> bool {
    p.len() <= s.len() && s.take(p.len() as int) == p
}

/// `s` ends with `p`.
pub open spec fn ends_with(s: Seq<char>, p: Seq<char>) -> bool {
    p.len() <= s.len() && s.skip(s.len() - p.len()) == p
}

/// Unicode `White_Space`, as `char::is_whitespace` decides it.
pub open spec fn is_ws(c: char) -> bool {
    ||| c == ' '
    ||| ('\u{9}' <= c && c <= '\u{d}')
    ||| c == '\u{85}'
    ||| c == '\u{a0}'
    ||| c == '\u{1680}'
    ||| ('\u{2000}' <= c && c <= '\u{200a}')
    ||| c == '\u{2028}'
    ||| c == '\u{2029}'
    ||| c == '\u{202f}'
    ||| c == '\u{205f}'
    ||| c == '\u{3000}'
}

/// `s` without its leading whitespace.
pub open spec fn trim_start(s: Seq<char>) -> Seq<char>
    decreases s.len(),
{
    if s.len() > 0 && is_ws(s[0]) {
        trim_start(s.drop_first())
    } else {
        s
    }
}

/// `s` without its trailing whitespace.
pub open spec fn trim_end(s: Seq<char>) -> Seq<char>
    decreases s.len(),
{
    if s.len() > 0 && is_ws(s.last()) {
        trim_end(s.drop_last())
    } else {
        s
    }
}

/// `s` without leading and trailing whitespace (`str::trim`).
pub open spec fn trim(s: Seq<char>) -> Seq<char> {
    trim_end(trim_start(s))
}

/// A line without the carriage return that ended it, if any.
pub open spec fn strip_cr(l: Seq<char>) -> Seq<char> {
    if l.len() > 0 && l.last() == '\r' {
        l.drop_last()
    } else {
        l
    }
}

/// The newline as a one-character pattern.
pub open spec fn newline() -> Seq<char> {
    seq!['\n']
}

/// The lines of `s` as `str::lines` yields them: split at `\n`, a `\r`
/// just before the `\n` dropped, and no empty line after a final `\n`.
pub open spec fn lines(s: Seq<char>) -> Seq<Seq<char>>
    decreases s.len(),
{
    if s.len() == 0 {
        seq![]
    } else {
        match find_text(s, newline()) {
            None => seq![s],
            Some(i) => {
                if 0 <= i < s.len() {
                    seq![strip_cr(s.take(i))] + lines(s.skip(i + 1))
                } else {
                    seq![s]
                }
            },
        }
    }
}

/// Lexicographic order on character sequences by code point, the order
/// of `String`'s `Ord`.
pub open spec fn text_lt(a: Seq<char>, b: Seq<char>) -> bool
    decreases a.len(),
{
    if a.len() == 0 {
        b.len() > 0
    } else if b.len() == 0 {
        false
    } else if a[0] != b[0] {
        a[0] < b[0]
    } else {
        text_lt(a.drop_first(), b.drop_first())
    }
}

/// Decimal digits of a number, most significant first.
pub open spec fn decimal(n: nat) -> Seq<char>
    decreases n,
{
    if n < 10 {
        seq![digit_char(n)]
    } else {
        decimal(n / 10).push(digit_char(n % 10))
    }
}

/// The character of a single decimal digit.
pub open spec fn digit_char(d: nat) -> char {
    if d == 0 { '0' }
    else if d == 1 { '1' }
    else if d == 2 { '2' }
    else if d == 3 { '3' }
    else if d == 4 { '4' }
    else if d == 5 { '5' }
    else if d == 6 { '6' }
    else if d == 7 { '7' }
    else if d == 8 { '8' }
    else { '9' }
}

pub proof fn lemma_find_from_bounds(s: Seq<char>, pat: Seq<char>, start: int)
    requires
        0 <= start,
    ensures
        find_from(s, pat, start) matches Some(i) ==> start <= i && occurs_at(s, pat, i)
            && forall|j: int| start <= j < i ==> !occurs_at(s, pat, j),
        find_from(s, pat, start) is None ==> forall|j: int|
            start <= j ==> !occurs_at(s, pat, j),
    decreases s.len() + 1 - start,
{
    if start + pat.len() > s.len() {
    } else if occurs_at(s, pat, start) {
    } else {
        lemma_find_from_bounds(s, pat, start + 1);
    }
}

/// `String::push`: appends one character.
#[verifier::external_body]
pub(crate) fn push_char(s: &mut String, c: char)
    ensures
        final(s)@ == old(s)@.push(c),
{
    s.push(c);
}

/// Copies the characters of a string slice into a vector.
pub fn chars_of(s: &str) -> (out: Vec<char>)
    ensures
        out@ == s@,
{
    let mut out: Vec<char> = Vec::new();
    for c in it: s.chars()
        invariant
            out@ == it.seq().take(it.index() as int),
    {
        out.push(c);
    }
    out
}

/// Builds a `String` holding exactly the given characters.
pub fn string_of(v: &Vec<char>) -> (out: String)
    ensures
        out@ == v@,
{
    let mut out = String::new();
    let mut i: usize = 0;
    while i < v.len()
        invariant
            i <= v.len(),
            out@ == v@.take(i as int),
        decreases v.len() - i,
    {
        push_char(&mut out, v[i]);
        assert(v@.take(i + 1) =~= v@.take(i as int).push(v@[i as int]));
        i += 1;
    }
    assert(v@.take(v.len() as int) =~= v@);
    out
}

/// Appends the characters of `src` to `dst`.
pub fn extend_chars(dst: &mut Vec<char>, src: &Vec<char>)
    ensures
        final(dst)@ == old(dst)@ + src@,
{
    let ghost start = dst@;
    let mut i: usize = 0;
    while i < src.len()
        invariant
            i <= src.len(),
            dst@ == start + src@.take(i as int),
        decreases src.len() - i,
    {
        dst.push(src[i]);
        assert(src@.take(i + 1) =~= src@.take(i as int).push(src@[i as int]));
        i += 1;
    }
    assert(src@.take(src.len() as int) =~= src@);
}

/// Appends the characters of a string slice to `dst`.
pub fn extend_str(dst: &mut Vec<char>, src: &str)
    ensures
        final(dst)@ == old(dst)@ + src@,
{
    let v = chars_of(src);
    extend_chars(dst, &v);
}

/// Whether `pat` occurs in `s` at index `i`.
pub fn matches_at(s: &Vec<char>, pat: &Vec<char>, i: usize) -> (r: bool)
    ensures
        r == occurs_at(s@, pat@, i as int),
{
    if i > s.len() || pat.len() > s.len() - i {
        return false;
    }
    let mut k: usize = 0;
    while k < pat.len()
        invariant
            i + pat.len() <= s.len(),
            k <= pat.len(),
            forall|m: int| 0 <= m < k ==> s@[i + m] == pat@[m],
        decreases pat.len() - k,
    {
        if s[i + k] != pat[k] {
            assert(s@.subrange(i as int, i + pat.len())[k as int] != pat@[k as int]);
            return false;
        }
        k += 1;
    }
    assert(s@.subrange(i as int, i + pat.len()) =~= pat@);
    true
}

/// The first occurrence of `pat` in `s` at or after `start`.
pub fn find_in(s: &Vec<char>, pat: &Vec<char>, start: usize) -> (r: Option<usize>)
    ensures
        r matches Some(i) ==> find_from(s@, pat@, start as int) == Some(i as int),
        r is None ==> find_from(s@, pat@, start as int) is None,
{
    if start > s.len() || pat.len() > s.len() - start {
        return None;
    }
    let last = s.len() - pat.len();
    let mut i = start;
    while i <= last
        invariant
            start <= i,
            last + pat.len() == s.len(),
            i <= last + 1,
            find_from(s@, pat@, start as int) == find_from(s@, pat@, i as int),
        decreases last + 1 - i,
    {
        if matches_at(s, pat, i) {
            return Some(i);
        }
        if i == last {
            assert(find_from(s@, pat@, i + 1) is None);
            return None;
        }
        i += 1;
    }
    None
}

/// Whether `pat` occurs anywhere in `s`.
pub fn contains(s: &Vec<char>, pat: &Vec<char>) -> (r: bool)
    ensures
        r == contains_text(s@, pat@),
{
    proof {
        lemma_find_from_bounds(s@, pat@, 0);
    }
    match find_in(s, pat, 0) {
        Some(_) => true,
        None => false,
    }
}

/// Whether `s` begins with `p`.
pub fn has_prefix(s: &Vec<char>, p: &Vec<char>) -> (r: bool)
    ensures
        r == starts_with(s@, p@),
{
    let r = matches_at(s, p, 0);
    proof {
        if p@.len() <= s@.len() {
            assert(s@.subrange(0, p@.len() as int) =~= s@.take(p@.len() as int));
        }
    }
    r
}

/// Whether `s` ends with `p`.
pub fn has_suffix(s: &Vec<char>, p: &Vec<char>) -> (r: bool)
    ensures
        r == ends_with(s@, p@),
{
    if p.len() > s.len() {
        return false;
    }
    let r = matches_at(s, p, s.len() - p.len());
    proof {
        assert(s@.subrange(s@.len() - p@.len(), s@.len() as int) =~= s@.skip(
            s@.len() - p@.len(),
        ));
    }
    r
}

/// The characters of `s` from `from` up to `to`.
pub fn slice_of(s: &Vec<char>, from: usize, to: usize) -> (out: Vec<char>)
    requires
        from <= to <= s.len(),
    ensures
        out@ == s@.subrange(from as int, to as int),
{
    let mut out: Vec<char> = Vec::new();
    let mut i = from;
    while i < to
        invariant
            from <= i <= to,
            to <= s.len(),
            out@ == s@.subrange(from as int, i as int),
        decreases to - i,
    {
        out.push(s[i]);
        assert(s@.subrange(from as int, i + 1) =~= s@.subrange(from as int, i as int).push(
            s@[i as int],
        ));
        i += 1;
    }
    out
}

/// `char::is_whitespace`.
pub fn is_whitespace(c: char) -> (r: bool)
    ensures
        r == is_ws(c),
{
    c == ' ' || ('\u{9}' <= c && c <= '\u{d}') || c == '\u{85}' || c == '\u{a0}' || c
        == '\u{1680}' || ('\u{2000}' <= c && c <= '\u{200a}') || c == '\u{2028}' || c
        == '\u{2029}' || c == '\u{202f}' || c == '\u{205f}' || c == '\u{3000}'
}

/// `str::trim` on a character vector.
pub fn trim_chars(s: &Vec<char>) -> (out: Vec<char>)
    ensures
        out@ == trim(s@),
{
    let n = s.len();
    let mut i: usize = 0;
    assert(s@.skip(0) =~= s@);
    while i < n && is_whitespace(s[i])
        invariant
            i <= n,
            n == s.len(),
            trim_start(s@) == trim_start(s@.skip(i as int)),
        decreases n - i,
    {
        assert(s@.skip(i as int).drop_first() =~= s@.skip(i + 1));
        i += 1;
    }
    assert(trim_start(s@.skip(i as int)) == s@.skip(i as int));
    let mut j: usize = n;
    while j > i && is_whitespace(s[j - 1])
        invariant
            i <= j <= n,
            n == s.len(),
            trim_end(s@.skip(i as int)) == trim_end(s@.subrange(i as int, j as int)),
        decreases j,
    {
        assert(s@.subrange(i as int, j as int).drop_last() =~= s@.subrange(
            i as int,
            j - 1,
        ));
        j -= 1;
    }
    assert(s@.skip(i as int) =~= s@.subrange(i as int, n as int));
    slice_of(s, i, j)
}

/// `str::lines` on a character vector.
pub fn split_lines(s: &Vec<char>) -> (out: Vec<Vec<char>>)
    ensures
        out@.map_values(|l: Vec<char>| l@) == lines(s@),
{
    let nl: Vec<char> = vec!['\n'];
    assert(nl@ =~= newline());
    let mut out: Vec<Vec<char>> = Vec::new();
    let mut pos: usize = 0;
    assert(s@.skip(0) =~= s@);
    assert(out@.map_values(|l: Vec<char>| l@) + lines(s@) =~= lines(s@));
    while pos < s.len()
        invariant
            pos <= s.len(),
            nl@ == newline(),
            lines(s@) == out@.map_values(|l: Vec<char>| l@) + lines(s@.skip(pos as int)),
        decreases s.len() - pos,
    {
        let ghost rest = s@.skip(pos as int);
        let found = find_in(s, &nl, pos);
        proof {
            lemma_find_from_bounds(s@, newline(), pos as int);
            lemma_find_shift(s@, newline(), pos as int);
        }
        match found {
            Some(i) => {
                let mut line = slice_of(s, pos, i);
                if line.len() > 0 && line[line.len() - 1] == '\r' {
                    line.pop();
                }
                proof {
                    assert(find_text(rest, newline()) == Some(i - pos));
                    assert(rest.take(i - pos) =~= s@.subrange(pos as int, i as int));
                    assert(rest.skip(i - pos + 1) =~= s@.skip(i + 1));
                    assert(lines(rest) == seq![strip_cr(rest.take(i - pos))] + lines(
                        rest.skip(i - pos + 1),
                    ));
                }
                out.push(line);
                proof {
                    assert(out@.map_values(|l: Vec<char>| l@) =~= old_map_push(
                        out@.drop_last(),
                        out@.last(),
                    ));
                }
                pos = i + 1;
            },
            None => {
                proof {
                    assert(find_text(rest, newline()) is None);
                    assert(lines(rest) == seq![rest]);
                }
                let line = slice_of(s, pos, s.len());
                assert(line@ =~= rest);
                out.push(line);
                proof {
                    assert(out@.map_values(|l: Vec<char>| l@) =~= old_map_push(
                        out@.drop_last(),
                        out@.last(),
                    ));
                    assert(s@.skip(s.len() as int) =~= Seq::<char>::empty());
                }
                pos = s.len();
            },
        }
    }
    proof {
        assert(s@.skip(pos as int) =~= Seq::<char>::empty());
        assert(out@.map_values(|l: Vec<char>| l@) + Seq::<Seq<char>>::empty() =~= out@.map_values(
            |l: Vec<char>| l@,
        ));
    }
    out
}

spec fn old_map_push(prefix: Seq<Vec<char>>, last: Vec<char>) -> Seq<Seq<char>> {
    prefix.map_values(|l: Vec<char>| l@).push(last@)
}

/// Searching from `start` in `s` finds what searching `s.skip(start)`
/// from its beginning finds, shifted by `start`.
pub proof fn lemma_find_shift(s: Seq<char>, pat: Seq<char>, start: int)
    requires
        0 <= start <= s.len(),
    ensures
        find_from(s, pat, start) == (match find_text(s.skip(start), pat) {
            Some(i) => Some(i + start),
            None => None,
        }),
{
    lemma_find_shift_from(s, pat, start, start);
}

proof fn lemma_find_shift_from(s: Seq<char>, pat: Seq<char>, start: int, k: int)
    requires
        0 <= start <= k,
        start <= s.len(),
    ensures
        find_from(s, pat, k) == (match find_from(s.skip(start), pat, k - start) {
            Some(i) => Some(i + start),
            None => None,
        }),
    decreases s.len() + 1 - k,
{
    let t = s.skip(start);
    if k + pat.len() > s.len() {
    } else {
        assert(occurs_at(s, pat, k) == occurs_at(t, pat, k - start)) by {
            assert(s.subrange(k, k + pat.len()) =~= t.subrange(k - start, k - start + pat.len()));
        }
        if !occurs_at(s, pat, k) {
            lemma_find_shift_from(s, pat, start, k + 1);
        }
    }
}

/// Whether `a` sorts strictly before `b` under `String`'s order.
pub fn text_less(a: &Vec<char>, b: &Vec<char>) -> (r: bool)
    ensures
        r == text_lt(a@, b@),
{
    let mut i: usize = 0;
    assert(a@.skip(0) =~= a@);
    assert(b@.skip(0) =~= b@);
    while i < a.len() && i < b.len() && a[i] == b[i]
        invariant
            i <= a.len(),
            i <= b.len(),
            text_lt(a@, b@) == text_lt(a@.skip(i as int), b@.skip(i as int)),
        decreases a.len() - i,
    {
        assert(a@.skip(i as int).drop_first() =~= a@.skip(i + 1));
        assert(b@.skip(i as int).drop_first() =~= b@.skip(i + 1));
        i += 1;
    }
    if i == a.len() {
        i < b.len()
    } else if i == b.len() {
        false
    } else {
        a[i] < b[i]
    }
}

/// The order is irreflexive.
pub proof fn lemma_text_lt_irreflexive(a: Seq<char>)
    ensures
        !text_lt(a, a),
    decreases a.len(),
{
    if a.len() > 0 {
        lemma_text_lt_irreflexive(a.drop_first());
    }
}

/// The order is transitive.
pub proof fn lemma_text_lt_transitive(a: Seq<char>, b: Seq<char>, c: Seq<char>)
    requires
        text_lt(a, b),
        text_lt(b, c),
    ensures
        text_lt(a, c),
    decreases a.len(),
{
    if a.len() > 0 && b.len() > 0 && c.len() > 0 && a[0] == b[0] && b[0] == c[0] {
        lemma_text_lt_transitive(a.drop_first(), b.drop_first(), c.drop_first());
    }
}

/// Two different sequences are ordered one way or the other.
pub proof fn lemma_text_lt_total(a: Seq<char>, b: Seq<char>)
    ensures
        a == b || text_lt(a, b) || text_lt(b, a),
    decreases a.len(),
{
    if a.len() > 0 && b.len() > 0 && a[0] == b[0] {
        lemma_text_lt_total(a.drop_first(), b.drop_first());
        if a.drop_first() == b.drop_first() {
            assert(a =~= seq![a[0]] + a.drop_first());
            assert(b =~= seq![b[0]] + b.drop_first());
        }
    } else if a.len() > 0 && b.len() > 0 {
    } else if a.len() == 0 && b.len() == 0 {
        assert(a =~= b);
    }
}

/// The decimal text of a number (`u64::to_string`).
pub fn decimal_of(n: u64) -> (out: Vec<char>)
    ensures
        out@ == decimal(n as nat),
    decreases n,
{
    let d = n % 10;
    let c = if d == 0 { '0' } else if d == 1 { '1' } else if d == 2 { '2' } else if d == 3 {
        '3'
    } else if d == 4 { '4' } else if d == 5 { '5' } else if d == 6 { '6' } else if d == 7 {
        '7'
    } else if d == 8 { '8' } else { '9' };
    if n < 10 {
        vec![c]
    } else {
        let mut out = decimal_of(n / 10);
        out.push(c);
        out
    }
}

/// The texts held by a list of strings.
pub open spec fn texts(v: Seq<String>) -> Set<Seq<char>> {
    Set::new(|n: Seq<char>| exists|i: int| 0 <= i < v.len() && #[trigger] v[i]@ == n)
}

/// The list is strictly increasing under `String`'s order (so it holds
/// each text once).
pub open spec fn strictly_sorted(v: Seq<String>) -> bool {
    forall|i: int, j: int| 0 <= i < j < v.len() ==> text_lt(#[trigger] v[i]@, #[trigger] v[j]@)
}

fn less_at(v: &Vec<String>, i: usize, x: &Vec<char>) -> (r: bool)
    requires
        i < v.len(),
    ensures
        r == text_lt(v@[i as int]@, x@),
{
    let cv = chars_of(v[i].as_str());
    text_less(&cv, x)
}

/// Inserts a string into a strictly sorted list unless it is present,
/// keeping the list strictly sorted: the ordered-set insert of a
/// `BTreeSet<String>`.
pub fn insert_sorted(v: &mut Vec<String>, x: String)
    requires
        strictly_sorted(old(v)@),
    ensures
        strictly_sorted(final(v)@),
        texts(final(v)@) == texts(old(v)@).insert(x@),
{
    let xv = chars_of(x.as_str());
    let mut i: usize = 0;
    while i < v.len() && less_at(v, i, &xv)
        invariant
            i <= v.len(),
            xv@ == x@,
            forall|j: int| 0 <= j < i ==> text_lt(#[trigger] v@[j]@, x@),
        decreases v.len() - i,
    {
        i += 1;
    }
    let ghost before = v@;
    if i < v.len() {
        let cv = chars_of(v[i].as_str());
        if crate::types::chars_equal(&cv, &xv) {
            assert(texts(before).insert(x@) =~= texts(before));
            return;
        }
        proof {
            lemma_text_lt_total(cv@, xv@);
        }
    }
    assert(i < before.len() ==> text_lt(x@, before[i as int]@));
    v.insert(i, x);
    proof {
        let after = v@;
        assert forall|a: int, b: int| 0 <= a < b < after.len() implies text_lt(
            #[trigger] after[a]@,
            #[trigger] after[b]@,
        ) by {
            if b < i {
                assert(after[a] == before[a] && after[b] == before[b]);
            } else if b == i {
                assert(after[a] == before[a]);
            } else if a == i {
                assert(after[b] == before[b - 1]);
                if b - 1 > i {
                    lemma_text_lt_transitive(x@, before[i as int]@, before[b - 1]@);
                }
            } else if a < i {
                assert(after[a] == before[a] && after[b] == before[b - 1]);
                lemma_text_lt_transitive(before[a]@, x@, before[i as int]@);
                if b - 1 > i {
                    lemma_text_lt_transitive(before[a]@, before[i as int]@, before[b - 1]@);
                }
            } else {
                assert(after[a] == before[a - 1] && after[b] == before[b - 1]);
            }
        }
        assert forall|n: Seq<char>| texts(after).contains(n) == texts(before).insert(x@).contains(n) by {
            if texts(before).contains(n) && n != x@ {
                let k = choose|k: int| 0 <= k < before.len() && #[trigger] before[k]@ == n;
                if k < i {
                    assert(after[k] == before[k]);
                } else {
                    assert(after[k + 1] == before[k]);
                }
            }
            if n == x@ {
                assert(after[i as int]@ == n);
            }
            if texts(after).contains(n) {
                let k = choose|k: int| 0 <= k < after.len() && #[trigger] after[k]@ == n;
                if k < i {
                    assert(after[k] == before[k]);
                } else if k > i {
                    assert(after[k] == before[k - 1]);
                }
            }
        }
        assert(texts(after) =~= texts(before).insert(x@));
    }
}

} // verus!
