//! Per-invocation dispatch logic: rewriting guest import lines onto the
//! module shim, stripping export keywords, choosing between precompiled and
//! source forms, selecting the entry point for the request method, and the
//! invocation lifecycle.
//!
//! An import line has the shape `import {names} from "tana/module";` — any
//! leading whitespace, either quote character on either side, an optional
//! trailing semicolon, and trailing whitespace. Such a line becomes a
//! destructuring call against the import shim; on every other line a leading
//! `export` keyword is dropped; anything else passes through unchanged.

use vstd::prelude::*;
use vstd::string::StrSliceExecFns;
use vstd::string::StringExecFns;
use crate::text::to_chars;
use crate::text::from_chars;

verus! {

/// The whitespace characters the rewriter recognises.
pub open spec fn is_space(c: char) -> bool {
    c == ' ' || c == '\t' || c == '\n' || c == '\r' || c == '\x0b' || c == '\x0c'
}

/// The first index at or after `i` holding a non-space character, or the end.
pub open spec fn skip_ws(s: Seq<char>, i: int) -> int
    decreases s.len() - i when 0 <= i <= s.len()
{
    if i >= s.len() {
        i
    } else if is_space(s[i]) {
        skip_ws(s, i + 1)
    } else {
        i
    }
}

/// The end of `s[..i]` with trailing spaces dropped.
pub open spec fn skip_ws_back(s: Seq<char>, i: int) -> int
    decreases i when 0 <= i <= s.len()
{
    if i <= 0 {
        0
    } else if is_space(s[i - 1]) {
        skip_ws_back(s, i - 1)
    } else {
        i
    }
}

/// The first index at or after `i` holding `a` or `b`, or the end.
pub open spec fn scan_until(s: Seq<char>, i: int, a: char, b: char) -> int
    decreases s.len() - i when 0 <= i <= s.len()
{
    if i >= s.len() {
        i
    } else if s[i] == a || s[i] == b {
        i
    } else {
        scan_until(s, i + 1, a, b)
    }
}

pub proof fn lemma_scan_bounds(s: Seq<char>, i: int, a: char, b: char)
    requires
        0 <= i <= s.len(),
    ensures
        i <= scan_until(s, i, a, b) <= s.len(),
    decreases s.len() - i,
{
    if i < s.len() && !(s[i] == a || s[i] == b) {
        lemma_scan_bounds(s, i + 1, a, b);
    }
}

/// Whether the word `w` occurs in `s` starting exactly at `i`.
pub open spec fn starts_with_at(s: Seq<char>, i: int, w: Seq<char>) -> bool {
    0 <= i && i + w.len() <= s.len() && s.subrange(i, i + w.len()) == w
}

/// `s` with leading and trailing whitespace dropped.
pub open spec fn trimmed(s: Seq<char>) -> Seq<char> {
    let a = skip_ws(s, 0);
    let b = skip_ws_back(s, s.len() as int);
    if a <= b {
        s.subrange(a, b)
    } else {
        Seq::empty()
    }
}

/// The import-line decomposition: the names between the braces and the
/// module specifier between the quotes, both trimmed — or nothing, when the
/// line is not an import line.
pub open spec fn import_parts(s: Seq<char>) -> Option<(Seq<char>, Seq<char>)> {
    let i0 = skip_ws(s, 0);
    if !starts_with_at(s, i0, "import"@) {
        None
    } else {
        let i1 = i0 + 6;
        if !(i1 < s.len() && is_space(s[i1])) {
            None
        } else {
            let i2 = skip_ws(s, i1);
            if !(i2 < s.len() && s[i2] == '{') {
                None
            } else {
                let rb = scan_until(s, i2 + 1, '}', '}');
                if !(rb < s.len() && rb > i2 + 1) {
                    None
                } else {
                    let names = s.subrange(i2 + 1, rb);
                    let i3 = rb + 1;
                    if !(i3 < s.len() && is_space(s[i3])) {
                        None
                    } else {
                        let i4 = skip_ws(s, i3);
                        if !starts_with_at(s, i4, "from"@) {
                            None
                        } else {
                            let i5 = i4 + 4;
                            if !(i5 < s.len() && is_space(s[i5])) {
                                None
                            } else {
                                let i6 = skip_ws(s, i5);
                                if !(i6 < s.len() && (s[i6] == '"' || s[i6] == '\'')) {
                                    None
                                } else {
                                    let i7 = i6 + 1;
                                    if !starts_with_at(s, i7, "tana/"@) {
                                        None
                                    } else {
                                        let q = scan_until(s, i7, '"', '\'');
                                        if !(q < s.len() && q >= i7 + 6) {
                                            None
                                        } else {
                                            let module = s.subrange(i7, q);
                                            let i8 = q + 1;
                                            let i9 = if i8 < s.len() && s[i8] == ';' {
                                                i8 + 1
                                            } else {
                                                i8
                                            };
                                            if skip_ws(s, i9) != s.len() {
                                                None
                                            } else {
                                                Some((trimmed(names), trimmed(module)))
                                            }
                                        }
                                    }
                                }
                            }
                        }
                    }
                }
            }
        }
    }
}

/// A non-import line with a leading `export` keyword dropped; other lines
/// unchanged.
pub open spec fn export_stripped(s: Seq<char>) -> Seq<char> {
    let i0 = skip_ws(s, 0);
    if starts_with_at(s, i0, "export"@) && i0 + 6 < s.len() && is_space(s[i0 + 6]) {
        s.subrange(0, i0) + s.subrange(skip_ws(s, i0 + 6), s.len() as int)
    } else {
        s
    }
}

/// What one line of guest source becomes.
pub open spec fn rewrite_line_spec(s: Seq<char>) -> Seq<char> {
    match import_parts(s) {
        Some((names, module)) => "const {"@ + names + "} = __tanaImport('"@ + module + "');"@,
        None => export_stripped(s),
    }
}

/// The lines of `s`, split on newlines.
pub open spec fn split_lines(s: Seq<char>) -> Seq<Seq<char>>
    decreases s.len(),
    via split_lines_decreases
{
    let nl = scan_until(s, 0, '\n', '\n');
    if nl >= s.len() {
        seq![s]
    } else {
        seq![s.subrange(0, nl)] + split_lines(s.subrange(nl + 1, s.len() as int))
    }
}

#[via_fn]
proof fn split_lines_decreases(s: Seq<char>) {
    lemma_scan_bounds(s, 0, '\n', '\n');
}

/// Lines joined back with newlines.
pub open spec fn join_lines(ls: Seq<Seq<char>>) -> Seq<char>
    decreases ls.len(),
{
    if ls.len() == 0 {
        Seq::empty()
    } else if ls.len() == 1 {
        ls[0]
    } else {
        ls[0] + seq!['\n'] + join_lines(ls.drop_first())
    }
}

/// Every line rewritten.
pub open spec fn rewritten_lines(ls: Seq<Seq<char>>) -> Seq<Seq<char>> {
    ls.map_values(|l: Seq<char>| rewrite_line_spec(l))
}

/// The whole source, rewritten line by line and rejoined.
pub open spec fn rewrite_source_spec(s: Seq<char>) -> Seq<char> {
    join_lines(rewritten_lines(split_lines(s)))
}

fn blank(c: char) -> (r: bool)
    ensures
        r == is_space(c),
{
    c == ' ' || c == '\t' || c == '\n' || c == '\r' || c == '\x0b' || c == '\x0c'
}

fn skip_ws_exec(v: &Vec<char>, i: usize) -> (r: usize)
    requires
        i <= v@.len(),
    ensures
        r == skip_ws(v@, i as int),
        i <= r <= v@.len(),
{
    let mut j = i;
    while j < v.len()
        invariant
            i <= j <= v@.len(),
            skip_ws(v@, i as int) == skip_ws(v@, j as int),
        decreases v@.len() - j,
    {
        if !blank(v[j]) {
            return j;
        }
        j += 1;
    }
    j
}

fn skip_ws_back_exec(v: &Vec<char>, i: usize) -> (r: usize)
    requires
        i <= v@.len(),
    ensures
        r == skip_ws_back(v@, i as int),
        r <= i,
{
    let mut j = i;
    while j > 0
        invariant
            j <= i <= v@.len(),
            skip_ws_back(v@, i as int) == skip_ws_back(v@, j as int),
        decreases j,
    {
        if !blank(v[j - 1]) {
            return j;
        }
        j -= 1;
    }
    j
}

fn scan_exec(v: &Vec<char>, i: usize, a: char, b: char) -> (r: usize)
    requires
        i <= v@.len(),
    ensures
        r == scan_until(v@, i as int, a, b),
        i <= r <= v@.len(),
{
    let mut j = i;
    while j < v.len()
        invariant
            i <= j <= v@.len(),
            scan_until(v@, i as int, a, b) == scan_until(v@, j as int, a, b),
        decreases v@.len() - j,
    {
        if v[j] == a || v[j] == b {
            return j;
        }
        j += 1;
    }
    j
}

fn has_at(v: &Vec<char>, i: usize, w: &str) -> (r: bool)
    ensures
        r == starts_with_at(v@, i as int, w@),
{
    let wn = w.unicode_len();
    let n = v.len();
    if i > n || wn > n - i {
        return false;
    }
    let mut j: usize = 0;
    while j < wn
        invariant
            wn == w@.len(),
            n == v@.len(),
            i + wn <= n,
            j <= wn,
            forall|t: int| 0 <= t < j ==> v@[i + t] == w@[t],
        decreases wn - j,
    {
        if v[i + j] != w.get_char(j) {
            proof {
                let sub = v@.subrange(i as int, i + wn);
                if sub == w@ {
                    assert(sub[j as int] == v@[i + j]);
                }
            }
            return false;
        }
        j += 1;
    }
    proof {
        assert(v@.subrange(i as int, i + wn) =~= w@);
    }
    true
}

fn copy_range(v: &Vec<char>, a: usize, b: usize) -> (r: Vec<char>)
    requires
        a <= b <= v@.len(),
    ensures
        r@ == v@.subrange(a as int, b as int),
{
    let mut r: Vec<char> = Vec::new();
    let mut j = a;
    while j < b
        invariant
            a <= j <= b <= v@.len(),
            r@ == v@.subrange(a as int, j as int),
        decreases b - j,
    {
        r.push(v[j]);
        assert(v@.subrange(a as int, j as int).push(v@[j as int]) =~= v@.subrange(
            a as int,
            j + 1,
        ));
        j += 1;
    }
    r
}

fn push_str_chars(out: &mut Vec<char>, w: &str)
    ensures
        final(out)@ == old(out)@ + w@,
{
    let wn = w.unicode_len();
    let mut j: usize = 0;
    while j < wn
        invariant
            wn == w@.len(),
            j <= wn,
            out@ == old(out)@ + w@.take(j as int),
        decreases wn - j,
    {
        out.push(w.get_char(j));
        assert((old(out)@ + w@.take(j as int)).push(w@[j as int]) =~= old(out)@ + w@.take(j + 1));
        j += 1;
    }
    assert(w@.take(wn as int) =~= w@);
}

fn trim_exec(v: &Vec<char>) -> (r: Vec<char>)
    ensures
        r@ == trimmed(v@),
{
    let a = skip_ws_exec(v, 0);
    let b = skip_ws_back_exec(v, v.len());
    if a <= b {
        copy_range(v, a, b)
    } else {
        let r: Vec<char> = Vec::new();
        r
    }
}

fn export_strip_exec(line: &Vec<char>) -> (r: Vec<char>)
    ensures
        r@ == export_stripped(line@),
{
    let n = line.len();
    let i0 = skip_ws_exec(line, 0);
    if has_at(line, i0, "export") {
        proof {
            reveal_strlit("export");
        }
        let i1 = i0 + 6;
        if i1 < n && blank(line[i1]) {
            let i2 = skip_ws_exec(line, i1);
            let mut out = copy_range(line, 0, i0);
            let mut rest = copy_range(line, i2, n);
            out.append(&mut rest);
            return out;
        }
    }
    let whole = copy_range(line, 0, n);
    proof {
        assert(line@.subrange(0, n as int) =~= line@);
    }
    whole
}

/// Rewrites one line of guest source: an import line becomes a destructuring
/// call against the import shim, any other line loses a leading `export`.
pub fn rewrite_line(line: &Vec<char>) -> (r: Vec<char>)
    ensures
        r@ == rewrite_line_spec(line@),
{
    let n = line.len();
    let i0 = skip_ws_exec(line, 0);
    if !has_at(line, i0, "import") {
        return export_strip_exec(line);
    }
    proof {
        reveal_strlit("import");
    }
    let i1 = i0 + 6;
    if !(i1 < n && blank(line[i1])) {
        return export_strip_exec(line);
    }
    let i2 = skip_ws_exec(line, i1);
    if !(i2 < n && line[i2] == '{') {
        return export_strip_exec(line);
    }
    let rb = scan_exec(line, i2 + 1, '}', '}');
    if !(rb < n && rb > i2 + 1) {
        return export_strip_exec(line);
    }
    let i3 = rb + 1;
    if !(i3 < n && blank(line[i3])) {
        return export_strip_exec(line);
    }
    let i4 = skip_ws_exec(line, i3);
    if !has_at(line, i4, "from") {
        return export_strip_exec(line);
    }
    proof {
        reveal_strlit("from");
    }
    let i5 = i4 + 4;
    if !(i5 < n && blank(line[i5])) {
        return export_strip_exec(line);
    }
    let i6 = skip_ws_exec(line, i5);
    if !(i6 < n && (line[i6] == '"' || line[i6] == '\'')) {
        return export_strip_exec(line);
    }
    let i7 = i6 + 1;
    if !has_at(line, i7, "tana/") {
        return export_strip_exec(line);
    }
    proof {
        reveal_strlit("tana/");
    }
    let q = scan_exec(line, i7, '"', '\'');
    if !(q < n && q - i7 >= 6) {
        return export_strip_exec(line);
    }
    let i8 = q + 1;
    let i9 = if i8 < n && line[i8] == ';' {
        i8 + 1
    } else {
        i8
    };
    if skip_ws_exec(line, i9) != n {
        return export_strip_exec(line);
    }
    let names_raw = copy_range(line, i2 + 1, rb);
    let mut names = trim_exec(&names_raw);
    let module_raw = copy_range(line, i7, q);
    let mut module = trim_exec(&module_raw);
    let mut out: Vec<char> = Vec::new();
    push_str_chars(&mut out, "const {");
    out.append(&mut names);
    push_str_chars(&mut out, "} = __tanaImport('");
    out.append(&mut module);
    push_str_chars(&mut out, "');");
    proof {
        assert(import_parts(line@) == Some(
            (
                trimmed(line@.subrange(i2 + 1, rb as int)),
                trimmed(line@.subrange(i7 as int, q as int)),
            ),
        ));
        assert(out@ =~= rewrite_line_spec(line@));
    }
    out
}

fn rewrite_source_chars(v: &Vec<char>) -> (r: Vec<char>)
    ensures
        r@ == rewrite_source_spec(v@),
    decreases v@.len(),
{
    let n = v.len();
    let nl = scan_exec(v, 0, '\n', '\n');
    if nl >= n {
        let whole = copy_range(v, 0, n);
        proof {
            assert(v@.subrange(0, n as int) =~= v@);
            assert(split_lines(v@) == seq![v@]);
            assert(rewritten_lines(seq![v@]) =~= seq![rewrite_line_spec(v@)]);
        }
        return rewrite_line(&whole);
    }
    let first = copy_range(v, 0, nl);
    let mut out = rewrite_line(&first);
    out.push('\n');
    let rest = copy_range(v, nl + 1, n);
    let mut tail = rewrite_source_chars(&rest);
    out.append(&mut tail);
    proof {
        let ls = split_lines(v@);
        assert(ls == seq![v@.subrange(0, nl as int)] + split_lines(
            v@.subrange(nl + 1, n as int),
        ));
        let rl = rewritten_lines(ls);
        let rrest = rewritten_lines(split_lines(rest@));
        assert(split_lines(rest@).len() >= 1);
        assert(ls.len() >= 2);
        assert(rl.len() == ls.len());
        assert(rl[0] == rewrite_line_spec(v@.subrange(0, nl as int)));
        assert(rl.drop_first() =~= rrest);
        assert(join_lines(rl) == rl[0] + seq!['\n'] + join_lines(rl.drop_first()));
        assert(out@ =~= rewrite_source_spec(v@));
    }
    out
}

/// Rewrites a whole guest source, line by line: import lines are redirected
/// through the import shim, leading `export` keywords are stripped, and every
/// other line passes through unchanged.
pub fn rewrite_source(src: &str) -> (r: String)
    ensures
        r@ == rewrite_source_spec(src@),
{
    let chars = to_chars(src);
    let rewritten = rewrite_source_chars(&chars);
    from_chars(&rewritten)
}

/// The request methods contracts can serve.
#[derive(Clone, Copy, Debug, PartialEq, Eq, Structural)]
pub enum Method {
    Get,
    Post,
}

/// A contract entry point.
#[derive(Clone, Copy, Debug, PartialEq, Eq, Structural)]
pub enum EntryPoint {
    Get,
    Post,
}

/// The form contract source was found in.
#[derive(Clone, Copy, Debug, PartialEq, Eq, Structural)]
pub enum SourceForm {
    Precompiled,
    Source,
}

/// Picks the form to load: the precompiled form is preferred over the source
/// form whenever it exists.
pub fn choose_source_form(js_exists: bool, ts_exists: bool) -> (r: Option<SourceForm>)
    ensures
        r == (if js_exists {
            Some(SourceForm::Precompiled)
        } else if ts_exists {
            Some(SourceForm::Source)
        } else {
            None::<SourceForm>
        }),
{
    if js_exists {
        Some(SourceForm::Precompiled)
    } else if ts_exists {
        Some(SourceForm::Source)
    } else {
        None
    }
}

/// Picks the entry point for the request method: the entry must match the
/// method exactly; a contract exporting only the other one is not invoked.
pub fn select_entry(method: Method, has_get: bool, has_post: bool) -> (r: Option<EntryPoint>)
    ensures
        r == (match method {
            Method::Get => if has_get {
                Some(EntryPoint::Get)
            } else {
                None::<EntryPoint>
            },
            Method::Post => if has_post {
                Some(EntryPoint::Post)
            } else {
                None::<EntryPoint>
            },
        }),
{
    match method {
        Method::Get => if has_get {
            Some(EntryPoint::Get)
        } else {
            None
        },
        Method::Post => if has_post {
            Some(EntryPoint::Post)
        } else {
            None
        },
    }
}

/// A structured error result for one invocation.
pub struct ErrorResponse {
    pub status: u16,
    pub message: String,
}

/// The fixed response when no entry point matches the request method.
pub fn no_entry_response() -> (r: ErrorResponse)
    ensures
        r.status == 500,
        r.message@ == "No Get or Post function exported"@,
{
    ErrorResponse {
        status: 500,
        message: String::from_str("No Get or Post function exported"),
    }
}

/// The status code the HTTP layer answers with: the response's own status
/// when it is a representable code, 200 otherwise.
pub fn http_status(s: Option<u64>) -> (r: u16)
    ensures
        r == (match s {
            Some(v) => if 100 <= v < 1000 {
                v as u16
            } else {
                200
            },
            None => 200,
        }),
{
    match s {
        Some(v) => {
            if 100 <= v && v < 1000 {
                v as u16
            } else {
                200
            }
        },
        None => 200,
    }
}

/// The stages one invocation passes through, in order.
#[derive(Clone, Copy, Debug, PartialEq, Eq, Structural)]
pub enum Phase {
    Created,
    CapabilitiesBound,
    ModulesBootstrapped,
    SourceLoaded,
    Compiled,
    EntryInvoked,
    AsyncDrained,
    ResultExtracted,
}

/// The position of a stage in the lifecycle.
pub open spec fn phase_rank(p: Phase) -> int {
    match p {
        Phase::Created => 0,
        Phase::CapabilitiesBound => 1,
        Phase::ModulesBootstrapped => 2,
        Phase::SourceLoaded => 3,
        Phase::Compiled => 4,
        Phase::EntryInvoked => 5,
        Phase::AsyncDrained => 6,
        Phase::ResultExtracted => 7,
    }
}

/// The stage an invocation moves to next. Compilation is skipped when the
/// source is already in executable form, and the final stage has no
/// successor: the lifecycle only ever moves forward.
pub fn next_phase(p: Phase, needs_compile: bool) -> (r: Option<Phase>)
    ensures
        r == (match p {
            Phase::Created => Some(Phase::CapabilitiesBound),
            Phase::CapabilitiesBound => Some(Phase::ModulesBootstrapped),
            Phase::ModulesBootstrapped => Some(Phase::SourceLoaded),
            Phase::SourceLoaded => if needs_compile {
                Some(Phase::Compiled)
            } else {
                Some(Phase::EntryInvoked)
            },
            Phase::Compiled => Some(Phase::EntryInvoked),
            Phase::EntryInvoked => Some(Phase::AsyncDrained),
            Phase::AsyncDrained => Some(Phase::ResultExtracted),
            Phase::ResultExtracted => None::<Phase>,
        }),
        r matches Some(q) ==> phase_rank(q) > phase_rank(p),
{
    match p {
        Phase::Created => Some(Phase::CapabilitiesBound),
        Phase::CapabilitiesBound => Some(Phase::ModulesBootstrapped),
        Phase::ModulesBootstrapped => Some(Phase::SourceLoaded),
        Phase::SourceLoaded => if needs_compile {
            Some(Phase::Compiled)
        } else {
            Some(Phase::EntryInvoked)
        },
        Phase::Compiled => Some(Phase::EntryInvoked),
        Phase::EntryInvoked => Some(Phase::AsyncDrained),
        Phase::AsyncDrained => Some(Phase::ResultExtracted),
        Phase::ResultExtracted => None,
    }
}

} // verus!
