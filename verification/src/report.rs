//! Text pieces of the reports: escaping for XML, HTML and CSV, shortening
//! long names, and the label of a test's result.
use vstd::prelude::*;
use vstd::utf8::{encode_utf8, encode_scalar, has_width_1_encoding, has_width_2_encoding,
    has_width_3_encoding, has_width_4_encoding};
use crate::text::{chars_of, decimal, decimal_of, string_of, extend_chars, extend_str};

verus! {

/// Replaces each character by the text `f` gives for it.
pub open spec fn expand(s: Seq<char>, f: spec_fn(char) -> Seq<char>) -> Seq<char>
    decreases s.len(),
{
    if s.len() == 0 {
        Seq::empty()
    } else {
        expand(s.drop_last(), f) + f(s.last())
    }
}

/// Expanding a concatenation expands each part.
pub proof fn lemma_expand_concat(a: Seq<char>, b: Seq<char>, f: spec_fn(char) -> Seq<char>)
    ensures
        expand(a + b, f) == expand(a, f) + expand(b, f),
    decreases b.len(),
{
    if b.len() == 0 {
        assert(a + b =~= a);
        assert(expand(a, f) + expand(b, f) =~= expand(a, f));
    } else {
        lemma_expand_concat(a, b.drop_last(), f);
        assert((a + b).drop_last() =~= a + b.drop_last());
        assert((a + b).last() == b.last());
        assert(expand(a, f) + expand(b, f) =~= expand(a, f) + expand(b.drop_last(), f) + f(b.last()));
    }
}

/// Expanding one character gives its text.
pub proof fn lemma_expand_single(c: char, f: spec_fn(char) -> Seq<char>)
    ensures
        expand(seq![c], f) == f(c),
{
    assert(seq![c].drop_last() =~= Seq::<char>::empty());
    assert(expand(Seq::<char>::empty(), f) =~= Seq::<char>::empty());
    assert(Seq::<char>::empty() + f(c) =~= f(c));
}

/// The XML text of one character: the five markup characters become
/// entities.
pub open spec fn xml_char(c: char) -> Seq<char> {
    if c == '&' {
        seq!['&', 'a', 'm', 'p', ';']
    } else if c == '<' {
        seq!['&', 'l', 't', ';']
    } else if c == '>' {
        seq!['&', 'g', 't', ';']
    } else if c == '"' {
        seq!['&', 'q', 'u', 'o', 't', ';']
    } else if c == '\'' {
        seq!['&', 'a', 'p', 'o', 's', ';']
    } else {
        seq![c]
    }
}

/// The HTML text of one character: `&`, `<`, `>` and `"` become entities.
pub open spec fn html_char(c: char) -> Seq<char> {
    if c == '\'' {
        seq![c]
    } else {
        xml_char(c)
    }
}

/// One of the five entities `xml_char` writes begins at `i`.
pub open spec fn entity_at(s: Seq<char>, i: int) -> bool {
    exists|c: char|
        (c == '&' || c == '<' || c == '>' || c == '"' || c == '\'') && i + xml_char(c).len()
            <= s.len() && #[trigger] s.subrange(i, i + xml_char(c).len()) == xml_char(c)
}

/// `s` holds no `<`, `>`, `"` or `'`, and each `&` in it begins an
/// entity.
pub open spec fn markup_safe(s: Seq<char>, quote_apos: bool) -> bool {
    &&& forall|i: int| 0 <= i < s.len() ==> #[trigger] s[i] != '<' && s[i] != '>' && s[i] != '"'
    &&& quote_apos ==> forall|i: int| 0 <= i < s.len() ==> #[trigger] s[i] != '\''
    &&& forall|i: int| 0 <= i < s.len() && #[trigger] s[i] == '&' ==> entity_at(s, i)
}

/// Expands each character with `f`, in order.
fn expand_with(s: &str, xml: bool) -> (r: String)
    ensures
        r@ == (if xml {
            expand(s@, |c: char| xml_char(c))
        } else {
            expand(s@, |c: char| html_char(c))
        }),
{
    let cs = chars_of(s);
    let mut out: Vec<char> = Vec::new();
    let ghost f: spec_fn(char) -> Seq<char> = if xml {
        |c: char| xml_char(c)
    } else {
        |c: char| html_char(c)
    };
    let mut i: usize = 0;
    while i < cs.len()
        invariant
            i <= cs@.len(),
            cs@ == s@,
            f == (if xml {
                |c: char| xml_char(c)
            } else {
                |c: char| html_char(c)
            }),
            out@ == expand(cs@.take(i as int), f),
        decreases cs@.len() - i,
    {
        let c = cs[i];
        if c == '&' {
            extend_str(&mut out, "&amp;");
            proof {
                reveal_strlit("&amp;");
            }
        } else if c == '<' {
            extend_str(&mut out, "&lt;");
            proof {
                reveal_strlit("&lt;");
            }
        } else if c == '>' {
            extend_str(&mut out, "&gt;");
            proof {
                reveal_strlit("&gt;");
            }
        } else if c == '"' {
            extend_str(&mut out, "&quot;");
            proof {
                reveal_strlit("&quot;");
            }
        } else if c == '\'' && xml {
            extend_str(&mut out, "&apos;");
            proof {
                reveal_strlit("&apos;");
            }
        } else {
            out.push(c);
        }
        proof {
            assert(cs@.take(i + 1).drop_last() =~= cs@.take(i as int));
            assert(cs@.take(i + 1).last() == c);
        }
        i += 1;
    }
    proof {
        assert(cs@.take(cs@.len() as int) =~= cs@);
    }
    string_of(&out)
}

/// Escapes the five XML markup characters.
pub fn xml_escape(s: &str) -> (r: String)
    ensures
        r@ == expand(s@, |c: char| xml_char(c)),
{
    expand_with(s, true)
}

/// Escapes the four HTML markup characters (`'` stays).
pub fn html_escape(s: &str) -> (r: String)
    ensures
        r@ == expand(s@, |c: char| html_char(c)),
{
    expand_with(s, false)
}

proof fn lemma_entity_shift(a: Seq<char>, b: Seq<char>, i: int)
    requires
        0 <= i < a.len(),
        entity_at(a, i),
    ensures
        entity_at(a + b, i),
{
    let c = choose|c: char|
        (c == '&' || c == '<' || c == '>' || c == '"' || c == '\'') && i + xml_char(c).len()
            <= a.len() && #[trigger] a.subrange(i, i + xml_char(c).len()) == xml_char(c);
    assert((a + b).subrange(i, i + xml_char(c).len()) =~= a.subrange(i, i + xml_char(c).len()));
}

proof fn lemma_entity_in_tail(a: Seq<char>, b: Seq<char>, j: int)
    requires
        0 <= j < b.len(),
        entity_at(b, j),
    ensures
        entity_at(a + b, a.len() + j),
{
    let c = choose|c: char|
        (c == '&' || c == '<' || c == '>' || c == '"' || c == '\'') && j + xml_char(c).len()
            <= b.len() && #[trigger] b.subrange(j, j + xml_char(c).len()) == xml_char(c);
    assert((a + b).subrange(a.len() + j, a.len() + j + xml_char(c).len()) =~= b.subrange(
        j,
        j + xml_char(c).len(),
    ));
}

/// The text of one character is safe on its own.
proof fn lemma_char_safe(c: char, xml: bool)
    ensures
        markup_safe(if xml { xml_char(c) } else { html_char(c) }, xml),
{
    let t = if xml { xml_char(c) } else { html_char(c) };
    if t[0] == '&' {
        let e = if c == '&' || c == '<' || c == '>' || c == '"' { c } else { '\'' };
        assert(t.subrange(0, 0int + xml_char(e).len()) =~= xml_char(e));
    }
}

/// Escaped text is safe markup: it holds no `<`, `>` or `"` (no `'`
/// either for XML), and every `&` in it begins one of the entities.
pub proof fn law_escape_is_markup_safe(s: Seq<char>, xml: bool)
    ensures
        markup_safe(
            if xml {
                expand(s, |c: char| xml_char(c))
            } else {
                expand(s, |c: char| html_char(c))
            },
            xml,
        ),
    decreases s.len(),
{
    let f: spec_fn(char) -> Seq<char> = if xml {
        |c: char| xml_char(c)
    } else {
        |c: char| html_char(c)
    };
    if s.len() > 0 {
        law_escape_is_markup_safe(s.drop_last(), xml);
        let a = expand(s.drop_last(), f);
        let b = f(s.last());
        lemma_char_safe(s.last(), xml);
        assert(b == (if xml { xml_char(s.last()) } else { html_char(s.last()) }));
        let e = a + b;
        assert(expand(s, f) == e);
        assert forall|i: int| 0 <= i < e.len() && #[trigger] e[i] == '&' implies entity_at(e, i) by {
            if i < a.len() {
                assert(e[i] == a[i]);
                lemma_entity_shift(a, b, i);
            } else {
                assert(e[i] == b[i - a.len()]);
                lemma_entity_in_tail(a, b, i - a.len());
            }
        }
        assert forall|i: int| 0 <= i < e.len() implies #[trigger] e[i] != '<' && e[i] != '>' && e[i]
            != '"' by {
            if i < a.len() {
                assert(e[i] == a[i]);
            } else {
                assert(e[i] == b[i - a.len()]);
            }
        }
        if xml {
            assert forall|i: int| 0 <= i < e.len() implies #[trigger] e[i] != '\'' by {
                if i < a.len() {
                    assert(e[i] == a[i]);
                } else {
                    assert(e[i] == b[i - a.len()]);
                }
            }
        }
    }
}

/// A CSV field needs quoting when it holds a comma, a quote or a newline.
pub open spec fn needs_quoting(s: Seq<char>) -> bool {
    s.contains(',') || s.contains('"') || s.contains('\n')
}

/// Inside a quoted CSV field a quote is written twice.
pub open spec fn doubled_quote(c: char) -> Seq<char> {
    if c == '"' {
        seq!['"', '"']
    } else {
        seq![c]
    }
}

/// The CSV field for a value: quoted, with inner quotes doubled, when it
/// needs quoting, else the value itself.
pub open spec fn csv_field(s: Seq<char>) -> Seq<char> {
    if needs_quoting(s) {
        seq!['"'] + expand(s, |c: char| doubled_quote(c)) + seq!['"']
    } else {
        s
    }
}

/// Reads back quoted text: each doubled quote, scanning from the front,
/// becomes one quote.
pub open spec fn undouble(s: Seq<char>) -> Seq<char>
    decreases s.len(),
{
    if s.len() == 0 {
        s
    } else if s.len() >= 2 && s[0] == '"' && s[1] == '"' {
        seq!['"'] + undouble(s.skip(2))
    } else {
        seq![s[0]] + undouble(s.skip(1))
    }
}

/// Reads back a CSV field: a quoted field loses its quotes and its doubled
/// quotes; any other field is the value itself.
pub open spec fn csv_unfield(e: Seq<char>) -> Seq<char> {
    if e.len() >= 2 && e[0] == '"' {
        undouble(e.subrange(1, e.len() - 1))
    } else {
        e
    }
}

/// Writes a value as a CSV field.
pub fn csv_escape(s: &str) -> (r: String)
    ensures
        r@ == csv_field(s@),
{
    let cs = chars_of(s);
    let mut quote = false;
    let mut k: usize = 0;
    while k < cs.len()
        invariant
            k <= cs@.len(),
            cs@ == s@,
            quote <==> exists|j: int| 0 <= j < k && (cs@[j] == ',' || cs@[j] == '"' || cs@[j] == '\n'),
        decreases cs@.len() - k,
    {
        let c = cs[k];
        if c == ',' || c == '"' || c == '\n' {
            quote = true;
        }
        k += 1;
    }
    proof {
        if quote {
            let j = choose|j: int| 0 <= j < k && (cs@[j] == ',' || cs@[j] == '"' || cs@[j] == '\n');
            if cs@[j] == ',' {
                assert(s@.contains(','));
            } else if cs@[j] == '"' {
                assert(s@.contains('"'));
            } else {
                assert(s@.contains('\n'));
            }
        } else {
            if s@.contains(',') {
                let j = choose|j: int| 0 <= j < s@.len() && s@[j] == ',';
                assert(cs@[j] == ',');
            }
            if s@.contains('"') {
                let j = choose|j: int| 0 <= j < s@.len() && s@[j] == '"';
                assert(cs@[j] == '"');
            }
            if s@.contains('\n') {
                let j = choose|j: int| 0 <= j < s@.len() && s@[j] == '\n';
                assert(cs@[j] == '\n');
            }
        }
    }
    if !quote {
        return string_of(&cs);
    }
    let ghost f: spec_fn(char) -> Seq<char> = |c: char| doubled_quote(c);
    let mut out: Vec<char> = Vec::new();
    out.push('"');
    let mut i: usize = 0;
    while i < cs.len()
        invariant
            i <= cs@.len(),
            cs@ == s@,
            f == (|c: char| doubled_quote(c)),
            out@ == seq!['"'] + expand(cs@.take(i as int), f),
        decreases cs@.len() - i,
    {
        let c = cs[i];
        if c == '"' {
            out.push('"');
            out.push('"');
        } else {
            out.push(c);
        }
        proof {
            assert(cs@.take(i + 1).drop_last() =~= cs@.take(i as int));
            assert(cs@.take(i + 1).last() == c);
            assert(out@ =~= seq!['"'] + expand(cs@.take(i + 1), f));
        }
        i += 1;
    }
    out.push('"');
    proof {
        assert(cs@.take(cs@.len() as int) =~= cs@);
    }
    string_of(&out)
}

proof fn lemma_undouble_doubled(s: Seq<char>)
    ensures
        undouble(expand(s, |c: char| doubled_quote(c))) == s,
    decreases s.len(),
{
    let f: spec_fn(char) -> Seq<char> = |c: char| doubled_quote(c);
    if s.len() > 0 {
        let rest = s.skip(1);
        assert(s =~= seq![s[0]] + rest);
        lemma_expand_concat(seq![s[0]], rest, f);
        lemma_expand_single(s[0], f);
        lemma_undouble_doubled(rest);
        let e = expand(s, f);
        assert(e == doubled_quote(s[0]) + expand(rest, f));
        if s[0] == '"' {
            assert(e.skip(2) =~= expand(rest, f));
        } else {
            assert(e.skip(1) =~= expand(rest, f));
        }
        assert(seq![s[0]] + rest =~= s);
    } else {
        assert(expand(s, f) == Seq::<char>::empty());
    }
}

/// Reading a CSV field back gives the value that was written.
pub proof fn law_csv_roundtrip(s: Seq<char>)
    ensures
        csv_unfield(csv_field(s)) == s,
{
    if needs_quoting(s) {
        let inner = expand(s, |c: char| doubled_quote(c));
        let e = seq!['"'] + inner + seq!['"'];
        assert(e.subrange(1, e.len() - 1) =~= inner);
        lemma_undouble_doubled(s);
    } else if s.len() >= 2 && s[0] == '"' {
        assert(s.contains('"'));
    }
}

/// The number of bytes of the UTF-8 encoding of a text.
pub open spec fn byte_len(s: Seq<char>) -> nat {
    encode_utf8(s).len()
}

proof fn lemma_byte_len_concat(a: Seq<char>, b: Seq<char>)
    ensures
        byte_len(a + b) == byte_len(a) + byte_len(b),
    decreases a.len(),
{
    if a.len() > 0 {
        assert((a + b).drop_first() =~= a.drop_first() + b);
        lemma_byte_len_concat(a.drop_first(), b);
    } else {
        assert(a + b =~= b);
    }
}

proof fn lemma_byte_len_single(c: char)
    ensures
        byte_len(seq![c]) == encode_scalar(c as u32).len(),
        1 <= byte_len(seq![c]) <= 4,
{
    assert(seq![c].drop_first() =~= Seq::<char>::empty());
    assert(encode_utf8(Seq::<char>::empty()) =~= Seq::<u8>::empty());
    assert(encode_scalar(c as u32) + Seq::<u8>::empty() =~= encode_scalar(c as u32));
}

/// The number of bytes a character takes in UTF-8.
fn char_width(c: char) -> (r: usize)
    ensures
        r == byte_len(seq![c]),
{
    proof {
        lemma_byte_len_single(c);
        vstd::utf8::char_is_scalar(c);
    }
    let v = c as u32;
    if v <= 0x7F {
        1
    } else if v <= 0x7FF {
        2
    } else if v <= 0xFFFF {
        3
    } else {
        4
    }
}

/// `j` is the last character that starts at or before byte `target`.
pub open spec fn cut_at(s: Seq<char>, target: int, j: int) -> bool {
    &&& 0 <= j < s.len()
    &&& byte_len(s.take(j)) <= target
    &&& (j + 1 == s.len() || byte_len(s.take(j + 1)) > target)
}

/// A name that fits in `max_len` bytes stays; a longer one keeps the
/// characters before the last one that starts within `max_len - 3` bytes,
/// followed by `...`.
pub fn truncate_name(name: &str, max_len: usize) -> (r: String)
    requires
        byte_len(name@) <= usize::MAX,
    ensures
        byte_len(name@) <= max_len ==> r@ == name@,
        byte_len(name@) > max_len ==> exists|j: int|
            cut_at(name@, if max_len >= 3 { max_len - 3 } else { 0 }, j) && r@ == name@.take(j)
                + seq!['.', '.', '.'],
        max_len >= 3 ==> byte_len(r@) <= max_len,
{
    let total = name.len();
    let cs = chars_of(name);
    if total <= max_len {
        return string_of(&cs);
    }
    let target = max_len.saturating_sub(3);
    proof {
        assert(cs@.len() > 0) by {
            if cs@.len() == 0 {
                assert(encode_utf8(cs@) =~= Seq::<u8>::empty());
            }
        }
    }
    let mut i: usize = 0;
    let mut offset: usize = 0;
    let mut j: usize = 0;
    while i < cs.len() && offset <= target
        invariant
            cs@ == name@,
            cs@.len() > 0,
            i <= cs@.len(),
            offset == byte_len(cs@.take(i as int)),
            target < total,
            total == byte_len(cs@),
            i == 0 ==> j == 0,
            i > 0 ==> j + 1 == i && byte_len(cs@.take(j as int)) <= target,
        decreases cs@.len() - i,
    {
        j = i;
        let w = char_width(cs[i]);
        proof {
            assert(cs@.take(i + 1) =~= cs@.take(i as int) + seq![cs@[i as int]]);
            lemma_byte_len_concat(cs@.take(i as int), seq![cs@[i as int]]);
            assert(cs@ =~= cs@.take(i + 1) + cs@.skip(i + 1));
            lemma_byte_len_concat(cs@.take(i + 1), cs@.skip(i + 1));
        }
        offset = offset + w;
        i += 1;
    }
    proof {
        assert(i > 0);
        if i < cs@.len() {
            assert(offset > target);
        }
        assert(cut_at(name@, target as int, j as int));
    }
    let mut out = slice_chars(&cs, j);
    extend_chars(&mut out, &dots());
    proof {
        let kept = cs@.take(j as int);
        lemma_byte_len_concat(kept, seq!['.', '.', '.']);
        assert(byte_len(seq!['.', '.', '.']) == 3) by {
            reveal_with_fuel(encode_utf8, 4);
            vstd::utf8::char_is_scalar('.');
        }
    }
    string_of(&out)
}

fn dots() -> (r: Vec<char>)
    ensures
        r@ == seq!['.', '.', '.'],
{
    let mut v: Vec<char> = Vec::new();
    v.push('.');
    v.push('.');
    v.push('.');
    v
}

fn slice_chars(cs: &Vec<char>, n: usize) -> (r: Vec<char>)
    requires
        n <= cs@.len(),
    ensures
        r@ == cs@.take(n as int),
{
    let mut out: Vec<char> = Vec::new();
    let mut i: usize = 0;
    while i < n
        invariant
            i <= n <= cs@.len(),
            out@ == cs@.take(i as int),
        decreases n - i,
    {
        out.push(cs[i]);
        assert(cs@.take(i + 1) =~= cs@.take(i as int).push(cs@[i as int]));
        i += 1;
    }
    out
}

/// The label a test's line gets after its iterations: all passed, none
/// passed, or some of each.
pub open spec fn result_text(passed: u32, total: u32) -> Seq<char> {
    if passed == total {
        seq!['P', 'A', 'S', 'S']
    } else if passed == 0 {
        seq!['F', 'A', 'I', 'L']
    } else {
        seq!['F', 'L', 'A', 'K', 'Y']
    }
}

/// The label of a test's result line.
pub fn result_label(passed: u32, total: u32) -> (r: &'static str)
    ensures
        r@ == result_text(passed, total),
{
    if passed == total {
        proof {
            reveal_strlit("PASS");
        }
        "PASS"
    } else if passed == 0 {
        proof {
            reveal_strlit("FAIL");
        }
        "FAIL"
    } else {
        proof {
            reveal_strlit("FLAKY");
        }
        "FLAKY"
    }
}

/// The gap before a result label: two spaces before `PASS` and `FAIL`,
/// one before the longer `FLAKY`, so that the brackets after them line up.
pub open spec fn result_gap_text(passed: u32, total: u32) -> Seq<char> {
    if passed != total && passed != 0 {
        seq![' ']
    } else {
        seq![' ', ' ']
    }
}

/// The progress counter of a result line: `[completed/test_count]`.
pub fn result_counter(completed: usize, test_count: usize) -> (r: String)
    ensures
        r@ == seq!['['] + decimal(completed as nat) + seq!['/'] + decimal(test_count as nat) + seq![']'],
{
    let mut out: Vec<char> = Vec::new();
    out.push('[');
    let c = decimal_of(completed as u64);
    extend_chars(&mut out, &c);
    out.push('/');
    let n = decimal_of(test_count as u64);
    extend_chars(&mut out, &n);
    out.push(']');
    assert(out@ =~= seq!['['] + decimal(completed as nat) + seq!['/'] + decimal(test_count as nat) + seq![']']);
    string_of(&out)
}

/// The line a test gets after its iterations: the (styled) counter, the
/// gap, the (styled) label, the passed and total counts, the time in
/// seconds as given, and the (shortened) name.
pub fn result_line(counter: &str, label: &str, passed: u32, total: u32, secs: &str, name: &str) -> (r: String)
    ensures
        r@ == counter@ + result_gap_text(passed, total) + label@ + seq![' ', '['] + decimal(passed as nat)
            + seq!['/'] + decimal(total as nat) + seq![']', ' ', '['] + secs@ + seq!['s', ']', ' '] + name@,
{
    let mut out = chars_of(counter);
    if passed != total && passed != 0 {
        out.push(' ');
    } else {
        out.push(' ');
        out.push(' ');
    }
    extend_str(&mut out, label);
    out.push(' ');
    out.push('[');
    let p = decimal_of(passed as u64);
    extend_chars(&mut out, &p);
    out.push('/');
    let t = decimal_of(total as u64);
    extend_chars(&mut out, &t);
    out.push(']');
    out.push(' ');
    out.push('[');
    extend_str(&mut out, secs);
    out.push('s');
    out.push(']');
    out.push(' ');
    extend_str(&mut out, name);
    assert(out@ =~= counter@ + result_gap_text(passed, total) + label@ + seq![' ', '['] + decimal(passed as nat)
        + seq!['/'] + decimal(total as nat) + seq![']', ' ', '['] + secs@ + seq!['s', ']', ' '] + name@);
    string_of(&out)
}

} // verus!
