//! Test binaries produced by `cargo test --no-run`.
use vstd::prelude::*;

use crate::text::{chars_of, contains, contains_text, find_in, find_text, lemma_find_from_bounds, slice_of, string_of, extend_str};
use crate::types::str_equal;
use crate::error::NinetyNineError;
use cargo_metadata::Message;

verus! {

/// Kind of cargo target a test binary was built from.
#[derive(Debug, Clone, Copy, PartialEq, Eq, Hash, Structural)]
pub enum BinaryKind {
    Lib,
    Bin,
    Test,
    Example,
}

/// A compiled test binary.
#[derive(Debug)]
pub struct TestBinary {
    pub path: String,
    pub package_name: String,
    pub binary_name: String,
    pub kind: BinaryKind,
}

/// Kinds of cargo targets, as `cargo_metadata` reports them.
#[derive(Debug, Clone, Copy, PartialEq, Eq, Structural)]
pub enum ArtifactKind {
    Test,
    Example,
    Bin,
    Lib,
    RLib,
    DyLib,
    ProcMacro,
    Other,
}

/// The binary kind of the first target kind that names one.
pub open spec fn first_binary_kind(kinds: Seq<ArtifactKind>) -> BinaryKind
    decreases kinds.len(),
{
    if kinds.len() == 0 {
        BinaryKind::Lib
    } else {
        match kinds[0] {
            ArtifactKind::Test => BinaryKind::Test,
            ArtifactKind::Example => BinaryKind::Example,
            ArtifactKind::Bin => BinaryKind::Bin,
            ArtifactKind::Other => first_binary_kind(kinds.drop_first()),
            _ => BinaryKind::Lib,
        }
    }
}

/// Classifies an artifact by its target kinds: the first test, example,
/// bin or library kind decides; with none, it is a library.
pub fn classify_artifact_kind(kinds: &Vec<ArtifactKind>) -> (r: BinaryKind)
    ensures
        r == first_binary_kind(kinds@),
{
    let mut i: usize = 0;
    assert(kinds@.skip(0) =~= kinds@);
    while i < kinds.len()
        invariant
            i <= kinds.len(),
            first_binary_kind(kinds@) == first_binary_kind(kinds@.skip(i as int)),
        decreases kinds.len() - i,
    {
        assert(kinds@.skip(i as int)[0] == kinds@[i as int]);
        assert(kinds@.skip(i as int).drop_first() =~= kinds@.skip(i + 1));
        match kinds[i] {
            ArtifactKind::Test => return BinaryKind::Test,
            ArtifactKind::Example => return BinaryKind::Example,
            ArtifactKind::Bin => return BinaryKind::Bin,
            ArtifactKind::Other => {},
            _ => return BinaryKind::Lib,
        }
        i += 1;
    }
    BinaryKind::Lib
}

/// The last index of `c` in `s`.
pub open spec fn last_index(s: Seq<char>, c: char) -> Option<int>
    decreases s.len(),
{
    if s.len() == 0 {
        None
    } else if s.last() == c {
        Some(s.len() - 1)
    } else {
        last_index(s.drop_last(), c)
    }
}

proof fn lemma_last_index(s: Seq<char>, c: char)
    ensures
        last_index(s, c) matches Some(i) ==> 0 <= i < s.len() && s[i] == c,
    decreases s.len(),
{
    if s.len() > 0 && s.last() != c {
        lemma_last_index(s.drop_last(), c);
    }
}

fn last_index_of(s: &Vec<char>, c: char) -> (r: Option<usize>)
    ensures
        r matches Some(i) ==> last_index(s@, c) == Some(i as int),
        r is None ==> last_index(s@, c) is None,
{
    let mut j: usize = s.len();
    assert(s@.take(s.len() as int) =~= s@);
    while j > 0
        invariant
            j <= s.len(),
            last_index(s@, c) == last_index(s@.take(j as int), c),
        decreases j,
    {
        assert(s@.take(j as int).last() == s@[j - 1]);
        if s[j - 1] == c {
            return Some(j - 1);
        }
        assert(s@.take(j as int).drop_last() =~= s@.take(j - 1));
        j -= 1;
    }
    None
}

/// The package name in a cargo package id: the name before the first
/// space of the old `name version (source)` form, else the spec form's
/// `name@version` fragment name, else the last path segment of the source.
pub open spec fn package_name_of(repr: Seq<char>) -> Seq<char> {
    match find_text(repr, seq![' ']) {
        Some(i) if contains_text(repr.skip(i + 1), seq!['(']) => repr.take(i),
        _ => match last_index(repr, '#') {
            Some(j) => {
                let url = repr.take(j);
                let frag = repr.skip(j + 1);
                match last_index(frag, '@') {
                    Some(a) => frag.take(a),
                    None => match last_index(url, '/') {
                        Some(b) => url.skip(b + 1),
                        None => url,
                    },
                }
            },
            None => repr,
        },
    }
}

/// Extracts the bare package name from a cargo package id.
///
/// Handles both the pre-1.77 form `name version (source)` and the spec form
/// `source#name@version`, where the fragment collapses to a bare version
/// when the name equals the last path segment of the source URL.
pub fn package_name_from_id(repr: &str) -> (r: String)
    ensures
        r@ == package_name_of(repr@),
{
    let s = chars_of(repr);
    let sp = vec![' '];
    let lp = vec!['('];
    assert(sp@ =~= seq![' ']);
    assert(lp@ =~= seq!['(']);
    proof {
        lemma_find_from_bounds(s@, seq![' '], 0);
    }
    if let Some(i) = find_in(&s, &sp, 0) {
        assert(crate::text::occurs_at(s@, seq![' '], i as int));
        assert(seq![' '].len() == 1);
        assert(i + 1 <= s@.len());
        let n = s.len();
        let rest = slice_of(&s, i + 1, n);
        assert(rest@ =~= s@.skip(i + 1));
        if contains(&rest, &lp) {
            let name = slice_of(&s, 0, i);
            assert(name@ =~= s@.take(i as int));
            return string_of(&name);
        }
    }
    proof {
        lemma_last_index(s@, '#');
    }
    match last_index_of(&s, '#') {
        Some(j) => {
            let url = slice_of(&s, 0, j);
            let frag = slice_of(&s, j + 1, s.len());
            assert(url@ =~= s@.take(j as int));
            assert(frag@ =~= s@.skip(j + 1));
            proof {
                lemma_last_index(frag@, '@');
                lemma_last_index(url@, '/');
            }
            match last_index_of(&frag, '@') {
                Some(a) => {
                    let name = slice_of(&frag, 0, a);
                    assert(name@ =~= frag@.take(a as int));
                    string_of(&name)
                },
                None => match last_index_of(&url, '/') {
                    Some(b) => {
                        let name = slice_of(&url, b + 1, url.len());
                        assert(name@ =~= url@.skip(b + 1));
                        string_of(&name)
                    },
                    None => string_of(&url),
                },
            }
        },
        None => string_of(&s),
    }
}

/// The target kind a cargo kind name stands for.
pub open spec fn artifact_kind_named(k: Seq<char>) -> ArtifactKind {
    if k == seq!['t', 'e', 's', 't'] {
        ArtifactKind::Test
    } else if k == seq!['e', 'x', 'a', 'm', 'p', 'l', 'e'] {
        ArtifactKind::Example
    } else if k == seq!['b', 'i', 'n'] {
        ArtifactKind::Bin
    } else if k == seq!['l', 'i', 'b'] {
        ArtifactKind::Lib
    } else if k == seq!['r', 'l', 'i', 'b'] {
        ArtifactKind::RLib
    } else if k == seq!['d', 'y', 'l', 'i', 'b'] {
        ArtifactKind::DyLib
    } else if k == seq!['p', 'r', 'o', 'c', '-', 'm', 'a', 'c', 'r', 'o'] {
        ArtifactKind::ProcMacro
    } else {
        ArtifactKind::Other
    }
}

/// The target kind named by a cargo kind name (`test`, `bin`, `lib`, ...);
/// kinds that do not make a test binary are `Other`.
pub fn artifact_kind_of(k: &str) -> (r: ArtifactKind)
    ensures
        r == artifact_kind_named(k@),
{
    proof {
        reveal_strlit("test");
        reveal_strlit("example");
        reveal_strlit("bin");
        reveal_strlit("lib");
        reveal_strlit("rlib");
        reveal_strlit("dylib");
        reveal_strlit("proc-macro");
        assert("test"@ =~= seq!['t', 'e', 's', 't']);
        assert("example"@ =~= seq!['e', 'x', 'a', 'm', 'p', 'l', 'e']);
        assert("bin"@ =~= seq!['b', 'i', 'n']);
        assert("lib"@ =~= seq!['l', 'i', 'b']);
        assert("rlib"@ =~= seq!['r', 'l', 'i', 'b']);
        assert("dylib"@ =~= seq!['d', 'y', 'l', 'i', 'b']);
        assert("proc-macro"@ =~= seq!['p', 'r', 'o', 'c', '-', 'm', 'a', 'c', 'r', 'o']);
    }
    if str_equal(k, "test") {
        ArtifactKind::Test
    } else if str_equal(k, "example") {
        ArtifactKind::Example
    } else if str_equal(k, "bin") {
        ArtifactKind::Bin
    } else if str_equal(k, "lib") {
        ArtifactKind::Lib
    } else if str_equal(k, "rlib") {
        ArtifactKind::RLib
    } else if str_equal(k, "dylib") {
        ArtifactKind::DyLib
    } else if str_equal(k, "proc-macro") {
        ArtifactKind::ProcMacro
    } else {
        ArtifactKind::Other
    }
}

/// What a compiler-artifact message of cargo says: whether it was built
/// with the test profile, its executable if any, its target kind names,
/// its package id and its target name.
pub struct CargoArtifact {
    pub test: bool,
    pub executable: Option<String>,
    pub kinds: Vec<String>,
    pub package_id: String,
    pub target_name: String,
}

/// The content of a `CargoArtifact`.
pub struct ArtifactView {
    pub test: bool,
    pub executable: Option<Seq<char>>,
    pub kinds: Seq<Seq<char>>,
    pub package_id: Seq<char>,
    pub target_name: Seq<char>,
}

impl View for CargoArtifact {
    type V = ArtifactView;

    open spec fn view(&self) -> ArtifactView {
        ArtifactView {
            test: self.test,
            executable: match self.executable {
                Some(e) => Some(e@),
                None => None,
            },
            kinds: self.kinds@.map_values(|k: String| k@),
            package_id: self.package_id@,
            target_name: self.target_name@,
        }
    }
}

/// One message of cargo's output: an artifact, another message, or a
/// line that could not be read.
pub type CargoMessage = Result<Option<CargoArtifact>, String>;

/// The content of a message.
pub open spec fn message_view(m: CargoMessage) -> Result<Option<ArtifactView>, Seq<char>> {
    match m {
        Ok(Some(a)) => Ok(Some(a@)),
        Ok(None) => Ok(None),
        Err(e) => Err(e@),
    }
}

/// The scan of JSON after one more byte, from where it stands: the nesting
/// depth of arrays and objects on the current line, whether it is inside a
/// string, and whether the next string character is escaped. A newline
/// starts a new line (each line is read as a message of its own); brackets
/// and braces outside strings open and close a level; a quote outside a
/// string opens one; inside a string a backslash escapes the next byte and
/// an unescaped quote closes it.
pub open spec fn json_step(st: (int, bool, bool), b: u8) -> (int, bool, bool) {
    let (depth, in_string, escaped) = st;
    if b == 10u8 {
        (0, false, false)
    } else if in_string {
        if escaped {
            (depth, true, false)
        } else if b == 92u8 {
            (depth, true, true)
        } else if b == 34u8 {
            (depth, false, false)
        } else {
            st
        }
    } else if b == 34u8 {
        (depth, true, false)
    } else if b == 91u8 || b == 123u8 {
        (depth + 1, false, false)
    } else if b == 93u8 || b == 125u8 {
        (if depth > 0 { depth - 1 } else { 0 }, false, false)
    } else {
        st
    }
}

/// The scan after all of `s`.
pub open spec fn json_scan(s: Seq<u8>) -> (int, bool, bool)
    decreases s.len(),
{
    if s.len() == 0 {
        (0, false, false)
    } else {
        json_step(json_scan(s.drop_last()), s.last())
    }
}

/// No line of `s` nests arrays and objects deeper than `limit`.
pub open spec fn nesting_within(s: Seq<u8>, limit: int) -> bool {
    forall|i: int| 0 <= i <= s.len() ==> #[trigger] json_scan(s.take(i)).0 <= limit
}

/// The nesting depth up to which cargo's JSON lines are read: the
/// recursion limit that `serde_json` keeps by default, which reading
/// cargo's messages turns off.
pub const CARGO_NESTING_LIMIT: usize = 128;

/// Whether no line of `json` nests deeper than `limit`.
pub fn check_nesting(json: &[u8], limit: usize) -> (r: bool)
    ensures
        r == nesting_within(json@, limit as int),
{
    let mut depth: usize = 0;
    let mut in_string = false;
    let mut escaped = false;
    let mut i: usize = 0;
    assert(json@.take(0) =~= Seq::<u8>::empty());
    while i < json.len()
        invariant
            i <= json@.len(),
            json_scan(json@.take(i as int)) == (depth as int, in_string, escaped),
            !in_string ==> !escaped,
            depth <= limit,
            forall|j: int| 0 <= j <= i ==> #[trigger] json_scan(json@.take(j)).0 <= limit,
        decreases json@.len() - i,
    {
        let b = json[i];
        proof {
            let t = json@.take(i + 1);
            assert(t.drop_last() =~= json@.take(i as int));
            assert(t.last() == b);
        }
        if b == 10u8 {
            depth = 0;
            in_string = false;
            escaped = false;
        } else if in_string {
            if escaped {
                escaped = false;
            } else if b == 92u8 {
                escaped = true;
            } else if b == 34u8 {
                in_string = false;
            }
        } else if b == 34u8 {
            in_string = true;
            escaped = false;
        } else if b == 91u8 || b == 123u8 {
            if depth == limit {
                proof {
                    assert(json_scan(json@.take(i + 1)).0 > limit);
                }
                return false;
            }
            depth = depth + 1;
        } else if b == 93u8 || b == 125u8 {
            if depth > 0 {
                depth = depth - 1;
            }
        }
        i += 1;
    }
    assert(json@.take(json@.len() as int) =~= json@);
    proof {
        assert forall|j: int| 0 <= j <= json@.len() implies #[trigger] json_scan(json@.take(j)).0 <= limit by {}
    }
    true
}

/// The messages `cargo_metadata` reads from a stream of cargo JSON output.
pub uninterp spec fn cargo_message_stream(json: Seq<u8>) -> Seq<Result<Option<ArtifactView>, Seq<char>>>;

/// Reads cargo's JSON message stream with `cargo_metadata`'s
/// `Message::parse_stream`, keeping of each compiler artifact what the
/// discovery reads and of each read error its text. The result depends on
/// the bytes alone; what it is for given bytes is named, not stated.
/// `cargo_metadata` reads each line with `serde_json`'s recursion limit
/// turned off, so a line nested deep enough overflows the stack: the input
/// must nest no deeper than `serde_json`'s default limit.
#[verifier::external_body]
fn parse_cargo_stream(json: &[u8]) -> (r: Vec<CargoMessage>)
    requires
        nesting_within(json@, CARGO_NESTING_LIMIT as int),
    ensures
        r@.map_values(|m: CargoMessage| message_view(m)) == cargo_message_stream(json@),
{
    Message::parse_stream(json).map(|m| match m {
        Ok(Message::CompilerArtifact(a)) => Ok(Some(CargoArtifact {
            test: a.profile.test,
            executable: a.executable.map(|p| p.into_string()),
            kinds: a.target.kind.iter().map(|k| k.to_string()).collect(),
            package_id: a.package_id.repr,
            target_name: a.target.name,
        })),
        Ok(_) => Ok(None),
        Err(e) => Err(e.to_string()),
    }).collect()
}

/// The content of a test binary: path, package, binary name, kind.
pub open spec fn binary_view(b: TestBinary) -> (Seq<char>, Seq<char>, Seq<char>, BinaryKind) {
    (b.path@, b.package_name@, b.binary_name@, b.kind)
}

/// The test binary an artifact is, if it was built for tests and has an
/// executable.
pub open spec fn artifact_binary(a: ArtifactView) -> Option<(Seq<char>, Seq<char>, Seq<char>, BinaryKind)> {
    match a.executable {
        Some(exe) => if a.test {
            Some(
                (
                    exe,
                    package_name_of(a.package_id),
                    a.target_name,
                    first_binary_kind(a.kinds.map_values(|k: Seq<char>| artifact_kind_named(k))),
                ),
            )
        } else {
            None
        },
        None => None,
    }
}

/// The test binaries of a message stream, in order, or the first read
/// error.
pub open spec fn stream_binaries(msgs: Seq<Result<Option<ArtifactView>, Seq<char>>>) -> Result<
    Seq<(Seq<char>, Seq<char>, Seq<char>, BinaryKind)>,
    Seq<char>,
>
    decreases msgs.len(),
{
    if msgs.len() == 0 {
        Ok(seq![])
    } else {
        match stream_binaries(msgs.drop_last()) {
            Err(e) => Err(e),
            Ok(v) => match msgs.last() {
                Err(e) => Err(e),
                Ok(None) => Ok(v),
                Ok(Some(a)) => match artifact_binary(a) {
                    Some(b) => Ok(v.push(b)),
                    None => Ok(v),
                },
            },
        }
    }
}

/// `failed to parse cargo message: `
pub open spec fn cargo_parse_prefix() -> Seq<char> {
    seq![
        'f', 'a', 'i', 'l', 'e', 'd', ' ', 't', 'o', ' ', 'p', 'a', 'r', 's', 'e', ' ', 'c', 'a',
        'r', 'g', 'o', ' ', 'm', 'e', 's', 's', 'a', 'g', 'e', ':', ' '
    ]
}

/// The binaries read from messages: every artifact built with the test
/// profile that has an executable, in order; a message that could not be
/// read ends the reading with a discovery error.
pub fn binaries_from_messages(msgs: Vec<CargoMessage>) -> (r: Result<Vec<TestBinary>, NinetyNineError>)
    ensures
        match stream_binaries(msgs@.map_values(|m: CargoMessage| message_view(m))) {
            Ok(v) => r matches Ok(bs) && bs@.map_values(|b: TestBinary| binary_view(b)) == v,
            Err(e) => r matches Err(NinetyNineError::BinaryDiscovery { message }) && message@
                == cargo_parse_prefix() + e,
        },
{
    let ghost views = msgs@.map_values(|m: CargoMessage| message_view(m));
    let mut out: Vec<TestBinary> = Vec::new();
    let mut i: usize = 0;
    assert(views.take(0) =~= Seq::<Result<Option<ArtifactView>, Seq<char>>>::empty());
    assert(out@.map_values(|b: TestBinary| binary_view(b)) =~= Seq::<(Seq<char>, Seq<char>, Seq<char>, BinaryKind)>::empty());
    while i < msgs.len()
        invariant
            i <= msgs@.len(),
            views == msgs@.map_values(|m: CargoMessage| message_view(m)),
            stream_binaries(views.take(i as int)) == Ok::<_, Seq<char>>(
                out@.map_values(|b: TestBinary| binary_view(b)),
            ),
        decreases msgs@.len() - i,
    {
        proof {
            let t = views.take(i + 1);
            assert(t.drop_last() =~= views.take(i as int));
            assert(t.last() == message_view(msgs@[i as int]));
        }
        match &msgs[i] {
            Err(e) => {
                let mut m: Vec<char> = Vec::new();
                extend_str(&mut m, "failed to parse cargo message: ");
                extend_str(&mut m, e.as_str());
                proof {
                    reveal_strlit("failed to parse cargo message: ");
                    assert(m@ =~= cargo_parse_prefix() + e@);
                    lemma_stream_error_stays(views, i as int + 1);
                }
                return Err(NinetyNineError::BinaryDiscovery { message: string_of(&m) });
            },
            Ok(None) => {},
            Ok(Some(a)) => {
                if a.test {
                    match &a.executable {
                        Some(exe) => {
                            let mut kinds: Vec<ArtifactKind> = Vec::new();
                            let mut k: usize = 0;
                            while k < a.kinds.len()
                                invariant
                                    k <= a.kinds@.len(),
                                    kinds@ == a.kinds@.take(k as int).map_values(
                                        |x: String| artifact_kind_named(x@),
                                    ),
                                decreases a.kinds@.len() - k,
                            {
                                let kind = artifact_kind_of(a.kinds[k].as_str());
                                kinds.push(kind);
                                assert(a.kinds@.take(k + 1).map_values(|x: String| artifact_kind_named(x@))
                                    =~= a.kinds@.take(k as int).map_values(|x: String| artifact_kind_named(x@)).push(
                                    kind,
                                ));
                                k += 1;
                            }
                            proof {
                                assert(a.kinds@.take(a.kinds@.len() as int) =~= a.kinds@);
                                assert(kinds@ =~= a@.kinds.map_values(|k: Seq<char>| artifact_kind_named(k)));
                            }
                            let b = TestBinary {
                                path: exe.clone(),
                                package_name: package_name_from_id(a.package_id.as_str()),
                                binary_name: a.target_name.clone(),
                                kind: classify_artifact_kind(&kinds),
                            };
                            let ghost before = out@;
                            out.push(b);
                            proof {
                                assert(out@.map_values(|b: TestBinary| binary_view(b)) =~= before.map_values(
                                    |b: TestBinary| binary_view(b),
                                ).push(binary_view(b)));
                            }
                        },
                        None => {},
                    }
                }
            },
        }
        i += 1;
    }
    assert(views.take(msgs@.len() as int) =~= views);
    Ok(out)
}

proof fn lemma_stream_error_stays(msgs: Seq<Result<Option<ArtifactView>, Seq<char>>>, k: int)
    requires
        0 < k <= msgs.len(),
        stream_binaries(msgs.take(k)) is Err,
    ensures
        stream_binaries(msgs) == stream_binaries(msgs.take(k)),
    decreases msgs.len() - k,
{
    if k < msgs.len() {
        let t = msgs.take(k + 1);
        assert(t.drop_last() =~= msgs.take(k));
        lemma_stream_error_stays(msgs, k + 1);
    } else {
        assert(msgs.take(k) =~= msgs);
    }
}

/// `cargo output nests too deeply to read`
pub open spec fn too_deep_message() -> Seq<char> {
    "cargo output nests too deeply to read"@
}

/// Reads the test binaries out of the JSON output of
/// `cargo test --no-run --message-format json-render-diagnostics`. Output
/// with a line nested deeper than `CARGO_NESTING_LIMIT` is refused with a
/// discovery error before it is read.
pub fn parse_cargo_messages(json_bytes: &[u8]) -> (r: Result<Vec<TestBinary>, NinetyNineError>)
    ensures
        !nesting_within(json_bytes@, CARGO_NESTING_LIMIT as int) ==> (r matches Err(
            NinetyNineError::BinaryDiscovery { message },
        ) && message@ == too_deep_message()),
        nesting_within(json_bytes@, CARGO_NESTING_LIMIT as int) ==> match stream_binaries(
            cargo_message_stream(json_bytes@),
        ) {
            Ok(v) => r matches Ok(bs) && bs@.map_values(|b: TestBinary| binary_view(b)) == v,
            Err(e) => r matches Err(NinetyNineError::BinaryDiscovery { message }) && message@
                == cargo_parse_prefix() + e,
        },
{
    if !check_nesting(json_bytes, CARGO_NESTING_LIMIT) {
        return Err(NinetyNineError::BinaryDiscovery { message: "cargo output nests too deeply to read".to_owned() });
    }
    let msgs = parse_cargo_stream(json_bytes);
    binaries_from_messages(msgs)
}

} // verus!
