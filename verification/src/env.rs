//! Facts about the machine a run happens on, read from what the caller
//! gathered: which CI service is running it and how much memory it has.
use vstd::prelude::*;
use crate::text::{chars_of, has_prefix, is_ws, is_whitespace, lines, slice_of, split_lines,
    starts_with, trim_start};

verus! {

/// The environment variable the `k`-th recognised CI service sets, in the
/// order they are checked.
pub open spec fn ci_var(k: int) -> Seq<char> {
    if k == 0 {
        "GITHUB_ACTIONS"@
    } else if k == 1 {
        "GITLAB_CI"@
    } else if k == 2 {
        "JENKINS_URL"@
    } else if k == 3 {
        "CIRCLECI"@
    } else if k == 4 {
        "BUILDKITE"@
    } else {
        "TF_BUILD"@
    }
}

/// The name of the `k`-th recognised CI service.
pub open spec fn ci_name(k: int) -> Seq<char> {
    if k == 0 {
        "GitHub Actions"@
    } else if k == 1 {
        "GitLab CI"@
    } else if k == 2 {
        "Jenkins"@
    } else if k == 3 {
        "CircleCI"@
    } else if k == 4 {
        "Buildkite"@
    } else {
        "Azure DevOps"@
    }
}

/// The number of recognised CI services.
pub const CI_SERVICES: usize = 6;

/// The environment variables that reveal a CI service, in the order they
/// are checked.
pub fn ci_env_vars() -> (r: Vec<&'static str>)
    ensures
        r@.len() == CI_SERVICES,
        forall|k: int| 0 <= k < CI_SERVICES ==> (#[trigger] r@[k])@ == ci_var(k),
{
    let r = vec!["GITHUB_ACTIONS", "GITLAB_CI", "JENKINS_URL", "CIRCLECI", "BUILDKITE", "TF_BUILD"];
    assert forall|k: int| 0 <= k < CI_SERVICES implies (#[trigger] r@[k])@ == ci_var(k) by {
        if k == 0 {
        } else if k == 1 {
        } else if k == 2 {
        } else if k == 3 {
        } else if k == 4 {
        } else {
        }
    }
    r
}

/// The CI service running the process: the first one, in check order,
/// whose variable is set (`set[k]` tells whether the `k`-th one is).
pub fn ci_provider(set: &Vec<bool>) -> (r: Option<String>)
    requires
        set@.len() == CI_SERVICES,
    ensures
        r is None <==> forall|k: int| 0 <= k < CI_SERVICES ==> !#[trigger] set@[k],
        r matches Some(name) ==> exists|k: int|
            0 <= k < CI_SERVICES && set@[k] && name@ == ci_name(k) && forall|j: int|
                0 <= j < k ==> !#[trigger] set@[j],
{
    let names = vec!["GitHub Actions", "GitLab CI", "Jenkins", "CircleCI", "Buildkite", "Azure DevOps"];
    assert forall|k: int| 0 <= k < CI_SERVICES implies (#[trigger] names@[k])@ == ci_name(k) by {
        if k == 0 {
        } else if k == 1 {
        } else if k == 2 {
        } else if k == 3 {
        } else if k == 4 {
        } else {
        }
    }
    let mut k: usize = 0;
    while k < CI_SERVICES
        invariant
            k <= CI_SERVICES,
            set@.len() == CI_SERVICES,
            names@.len() == CI_SERVICES,
            forall|j: int| 0 <= j < CI_SERVICES ==> (#[trigger] names@[j])@ == ci_name(j),
            forall|j: int| 0 <= j < k ==> !#[trigger] set@[j],
        decreases CI_SERVICES - k,
    {
        if set[k] {
            let name = names[k].to_owned();
            assert(names@[k as int]@ == ci_name(k as int));
            return Some(name);
        }
        k += 1;
    }
    None
}

/// The end of the word `s` starts with: its first whitespace, or its end.
pub open spec fn word_end(s: Seq<char>) -> int
    decreases s.len(),
{
    if s.len() == 0 || is_ws(s[0]) {
        0
    } else {
        1 + word_end(s.drop_first())
    }
}

/// The first whitespace-separated word of `s`, if any.
pub open spec fn first_word(s: Seq<char>) -> Option<Seq<char>> {
    let t = trim_start(s);
    if t.len() == 0 {
        None
    } else {
        Some(t.take(word_end(t)))
    }
}

/// What follows the first word of `s`.
pub open spec fn after_first_word(s: Seq<char>) -> Seq<char> {
    let t = trim_start(s);
    t.skip(word_end(t))
}

/// The second whitespace-separated word of `s` (`split_whitespace().nth(1)`).
pub open spec fn second_word(s: Seq<char>) -> Option<Seq<char>> {
    first_word(after_first_word(s))
}

/// The number the decimal digits of `s` write.
pub open spec fn digits_value(s: Seq<char>) -> nat
    decreases s.len(),
{
    if s.len() == 0 {
        0
    } else {
        digits_value(s.drop_last()) * 10 + ((s.last() as int - '0' as int) as nat)
    }
}

/// `s` is one or more ASCII digits.
pub open spec fn all_digits(s: Seq<char>) -> bool {
    s.len() > 0 && forall|i: int| 0 <= i < s.len() ==> '0' <= #[trigger] s[i] <= '9'
}

/// `u64::from_str`: an optional `+`, then digits, of a value that fits.
pub open spec fn parsed_u64(s: Seq<char>) -> Option<u64> {
    let d = if s.len() > 0 && s[0] == '+' {
        s.drop_first()
    } else {
        s
    };
    if all_digits(d) && digits_value(d) <= u64::MAX {
        Some(digits_value(d) as u64)
    } else {
        None
    }
}

/// `MemTotal:`
pub open spec fn mem_total_label() -> Seq<char> {
    "MemTotal:"@
}

/// The first line of `lines` that starts with `MemTotal:`, if any.
pub open spec fn first_mem_line(ls: Seq<Seq<char>>) -> Option<Seq<char>>
    decreases ls.len(),
{
    if ls.len() == 0 {
        None
    } else if starts_with(ls[0], mem_total_label()) {
        Some(ls[0])
    } else {
        first_mem_line(ls.drop_first())
    }
}

/// The total memory `/proc/meminfo` reports, in kB: the number after the
/// label of its first `MemTotal:` line.
pub open spec fn mem_total_of(contents: Seq<char>) -> Option<u64> {
    match first_mem_line(lines(contents)) {
        None => None,
        Some(l) => match second_word(l) {
            None => None,
            Some(w) => parsed_u64(w),
        },
    }
}

/// Skips whitespace from `i` on.
fn skip_ws_from(s: &Vec<char>, i: usize) -> (r: usize)
    requires
        i <= s@.len(),
    ensures
        i <= r <= s@.len(),
        s@.skip(r as int) == trim_start(s@.skip(i as int)),
{
    let mut j = i;
    while j < s.len() && is_whitespace(s[j])
        invariant
            i <= j <= s@.len(),
            trim_start(s@.skip(j as int)) == trim_start(s@.skip(i as int)),
        decreases s@.len() - j,
    {
        assert(s@.skip(j as int).drop_first() =~= s@.skip(j + 1));
        j += 1;
    }
    if j < s.len() {
        assert(s@.skip(j as int)[0] == s@[j as int]);
    } else {
        assert(s@.skip(j as int).len() == 0);
    }
    j
}

/// Skips a word from `i` on.
fn skip_word_from(s: &Vec<char>, i: usize) -> (r: usize)
    requires
        i <= s@.len(),
    ensures
        i <= r <= s@.len(),
        r - i == word_end(s@.skip(i as int)),
{
    let mut j = i;
    while j < s.len() && !is_whitespace(s[j])
        invariant
            i <= j <= s@.len(),
            word_end(s@.skip(i as int)) == (j - i) + word_end(s@.skip(j as int)),
        decreases s@.len() - j,
    {
        assert(s@.skip(j as int).drop_first() =~= s@.skip(j + 1));
        assert(s@.skip(j as int)[0] == s@[j as int]);
        j += 1;
    }
    if j < s.len() {
        assert(s@.skip(j as int)[0] == s@[j as int]);
    }
    j
}

/// Parses an optional `+` and decimal digits into a `u64`, refusing
/// anything else and values that do not fit.
pub fn parse_u64(s: &Vec<char>) -> (r: Option<u64>)
    ensures
        r == parsed_u64(s@),
{
    let start: usize = if s.len() > 0 && s[0] == '+' {
        1
    } else {
        0
    };
    let ghost d = if s@.len() > 0 && s@[0] == '+' {
        s@.drop_first()
    } else {
        s@
    };
    assert(d =~= s@.skip(start as int));
    if start >= s.len() {
        return None;
    }
    let mut value: u64 = 0;
    let mut i = start;
    while i < s.len()
        invariant
            start <= i <= s@.len(),
            start == (if s@.len() > 0 && s@[0] == '+' { 1int } else { 0int }),
            d == (if s@.len() > 0 && s@[0] == '+' { s@.drop_first() } else { s@ }),
            d == s@.skip(start as int),
            value == digits_value(s@.subrange(start as int, i as int)),
            forall|j: int| start <= j < i ==> '0' <= #[trigger] s@[j] <= '9',
        decreases s@.len() - i,
    {
        let c = s[i];
        assert(s@.subrange(start as int, i + 1).drop_last() =~= s@.subrange(start as int, i as int));
        if !('0' <= c && c <= '9') {
            assert(d[i - start] == c);
            return None;
        }
        let digit: u64 = (c as u32 - '0' as u32) as u64;
        proof {
            let sub = s@.subrange(start as int, i + 1);
            assert(sub.last() == c);
            assert(digits_value(sub) == value * 10 + digit);
        }
        match value.checked_mul(10) {
            None => {
                proof {
                    lemma_digits_grow(d, i - start + 1);
                    assert(d.take(i - start + 1) =~= s@.subrange(start as int, i + 1));
                }
                return None;
            },
            Some(m) => match m.checked_add(digit) {
                None => {
                    proof {
                        lemma_digits_grow(d, i - start + 1);
                        assert(d.take(i - start + 1) =~= s@.subrange(start as int, i + 1));
                    }
                    return None;
                },
                Some(v) => {
                    value = v;
                },
            },
        }
        i += 1;
    }
    assert(s@.subrange(start as int, s@.len() as int) =~= d);
    Some(value)
}

/// The value of a digit string is at least that of any prefix.
proof fn lemma_digits_grow(d: Seq<char>, k: int)
    requires
        0 <= k <= d.len(),
        forall|j: int| 0 <= j < k ==> '0' <= #[trigger] d[j] <= '9',
    ensures
        all_digits(d) ==> digits_value(d) >= digits_value(d.take(k)),
    decreases d.len() - k,
{
    if k < d.len() {
        if all_digits(d) {
            lemma_digits_grow(d, k + 1);
            assert(d.take(k + 1).drop_last() =~= d.take(k));
        }
    } else {
        assert(d.take(k) =~= d);
    }
}

/// Reads the total memory, in kB, out of the text of `/proc/meminfo`.
pub fn mem_total_kb(contents: &str) -> (r: Option<u64>)
    ensures
        r == mem_total_of(contents@),
{
    let text = chars_of(contents);
    let ls = split_lines(&text);
    let label = chars_of("MemTotal:");
    proof {
        reveal_strlit("MemTotal:");
        assert(label@ =~= mem_total_label());
    }
    let ghost lv = ls@.map_values(|l: Vec<char>| l@);
    let mut i: usize = 0;
    assert(lv.skip(0) =~= lv);
    while i < ls.len()
        invariant
            i <= ls@.len(),
            lv == ls@.map_values(|l: Vec<char>| l@),
            lv == lines(contents@),
            label@ == mem_total_label(),
            first_mem_line(lv) == first_mem_line(lv.skip(i as int)),
        decreases ls@.len() - i,
    {
        assert(lv.skip(i as int)[0] == ls@[i as int]@);
        if has_prefix(&ls[i], &label) {
            let line = &ls[i];
            let a = skip_ws_from(line, 0);
            let b = skip_word_from(line, a);
            let c = skip_ws_from(line, b);
            let d = skip_word_from(line, c);
            proof {
                let l = line@;
                assert(l.skip(0) =~= l);
                let t = trim_start(l);
                assert(t =~= l.skip(a as int));
                assert(after_first_word(l) =~= l.skip(b as int)) by {
                    assert(t.skip(word_end(t)) =~= l.skip(b as int));
                }
                let t2 = trim_start(l.skip(b as int));
                assert(t2 =~= l.skip(c as int));
            }
            if c >= line.len() {
                return None;
            }
            let word = slice_of(line, c, d);
            proof {
                assert(word@ =~= line@.skip(c as int).take(word_end(line@.skip(c as int))));
            }
            return parse_u64(&word);
        }
        assert(lv.skip(i as int).drop_first() =~= lv.skip(i + 1));
        i += 1;
    }
    None
}

} // verus!
