//! Scanning JavaScript-shaped workflow sources: removing comments, finding
//! the export idiom, cutting out the balanced object literal that follows
//! it, and rewriting that literal into strict JSON syntax.
use crate::text::{
    chars_of, extend_range, has_at, is_space, is_word, lemma_skip_space_bounds,
    lemma_trim_start_is_skip, skip_space, skip_spaces, space, string_from, string_of,
    trim_start, word,
};
use vstd::prelude::*;

verus! {

pub open spec fn is_quote(c: char) -> bool {
    c == '"' || c == '\'' || c == '`'
}

/// Where a block comment whose body starts at `k` ends: just past its `*/`,
/// or, when none follows, at the last character of the text.
pub open spec fn block_end(s: Seq<char>, k: int) -> int
    decreases s.len() - k,
{
    if k < 0 || k + 1 >= s.len() {
        k
    } else if s[k] == '*' && s[k + 1] == '/' {
        k + 2
    } else {
        block_end(s, k + 1)
    }
}

/// The first line break at or after `k` (or the end of the text).
pub open spec fn line_end(s: Seq<char>, k: int) -> int
    decreases s.len() - k,
{
    if k < 0 || k >= s.len() || s[k] == '\n' {
        k
    } else {
        line_end(s, k + 1)
    }
}

/// The text from `i` on without comments. The scanner state is whether it is
/// inside a quoted run (and which quote opened it) and whether the previous
/// character was a backslash.
pub open spec fn strip_from(s: Seq<char>, i: int, in_str: bool, q: char, esc: bool) -> Seq<char>
    decreases s.len() - i,
{
    if i < 0 || i >= s.len() {
        Seq::empty()
    } else {
        let c = s[i];
        if esc {
            seq![c] + strip_from(s, i + 1, in_str, q, false)
        } else if c == '\\' {
            seq![c] + strip_from(s, i + 1, in_str, q, true)
        } else if is_quote(c) {
            if !in_str {
                seq![c] + strip_from(s, i + 1, true, c, false)
            } else if c == q {
                seq![c] + strip_from(s, i + 1, false, q, false)
            } else {
                seq![c] + strip_from(s, i + 1, true, q, false)
            }
        } else if in_str {
            seq![c] + strip_from(s, i + 1, true, q, false)
        } else if c == '/' && i + 1 < s.len() && s[i + 1] == '*' {
            let k = block_end(s, i + 2);
            if i < k <= s.len() {
                strip_from(s, k, false, q, false)
            } else {
                Seq::empty()
            }
        } else if c == '/' && i + 1 < s.len() && s[i + 1] == '/' {
            let j = line_end(s, i + 2);
            if i < j < s.len() {
                seq![s[j]] + strip_from(s, j + 1, false, q, false)
            } else {
                Seq::empty()
            }
        } else {
            seq![c] + strip_from(s, i + 1, false, q, false)
        }
    }
}

/// The text without `//` and `/* */` comments; quoted runs are kept whole.
pub open spec fn strip_comments(s: Seq<char>) -> Seq<char> {
    strip_from(s, 0, false, '"', false)
}

proof fn lemma_block_end(s: Seq<char>, k: int)
    requires
        0 <= k <= s.len(),
    ensures
        k <= block_end(s, k) <= s.len(),
    decreases s.len() - k,
{
    if k + 1 < s.len() && !(s[k] == '*' && s[k + 1] == '/') {
        lemma_block_end(s, k + 1);
    }
}

proof fn lemma_line_end(s: Seq<char>, k: int)
    requires
        0 <= k <= s.len(),
    ensures
        k <= line_end(s, k) <= s.len(),
        line_end(s, k) < s.len() ==> s[line_end(s, k)] == '\n',
    decreases s.len() - k,
{
    if k < s.len() && s[k] != '\n' {
        lemma_line_end(s, k + 1);
    }
}

fn block_end_exec(s: &Vec<char>, k: usize) -> (r: usize)
    requires
        k <= s.len(),
    ensures
        r == block_end(s@, k as int),
{
    let mut j = k;
    while s.len() > 0 && j < s.len() - 1
        invariant
            k <= j <= s.len(),
            block_end(s@, j as int) == block_end(s@, k as int),
        decreases s.len() - j,
    {
        if s[j] == '*' && s[j + 1] == '/' {
            return j + 2;
        }
        j += 1;
    }
    j
}

fn line_end_exec(s: &Vec<char>, k: usize) -> (r: usize)
    requires
        k <= s.len(),
    ensures
        r == line_end(s@, k as int),
{
    let mut j = k;
    while j < s.len() && s[j] != '\n'
        invariant
            k <= j <= s.len(),
            line_end(s@, j as int) == line_end(s@, k as int),
        decreases s.len() - j,
    {
        j += 1;
    }
    j
}

/// Removes `//` line comments (keeping the line break) and `/* */` block
/// comments, leaving quoted runs and escaped characters untouched.
pub fn remove_comments(content: &str) -> (r: String)
    ensures
        r@ == strip_comments(content@),
{
    let s = chars_of(content);
    let mut out: Vec<char> = Vec::new();
    let mut i: usize = 0;
    let mut in_str = false;
    let mut q = '"';
    let mut esc = false;
    while i < s.len()
        invariant
            i <= s.len(),
            s@ == content@,
            out@ + strip_from(s@, i as int, in_str, q, esc) == strip_comments(content@),
        decreases s.len() - i,
    {
        let ghost before = out@;
        let ghost i0 = i as int;
        let ghost in0 = in_str;
        let ghost q0 = q;
        let ghost e0 = esc;
        let c = s[i];
        if esc {
            esc = false;
            out.push(c);
            i += 1;
        } else if c == '\\' {
            esc = true;
            out.push(c);
            i += 1;
        } else if c == '"' || c == '\'' || c == '`' {
            if !in_str {
                in_str = true;
                q = c;
            } else if c == q {
                in_str = false;
            }
            out.push(c);
            i += 1;
        } else if in_str {
            out.push(c);
            i += 1;
        } else if c == '/' && i + 1 < s.len() && s[i + 1] == '*' {
            proof {
                lemma_block_end(s@, i + 2);
            }
            i = block_end_exec(&s, i + 2);
        } else if c == '/' && i + 1 < s.len() && s[i + 1] == '/' {
            proof {
                lemma_line_end(s@, i + 2);
            }
            let j = line_end_exec(&s, i + 2);
            if j < s.len() {
                out.push(s[j]);
                i = j + 1;
            } else {
                i = j;
            }
        } else {
            out.push(c);
            i += 1;
        }
        assert(out@ + strip_from(s@, i as int, in_str, q, esc) =~= before + strip_from(
            s@,
            i0,
            in0,
            q0,
            e0,
        ));
    }
    string_from(&out)
}

/// Past a `${{ ... }}` marker whose body starts at `k`: after `n` more `}`.
pub open spec fn marker_end(s: Seq<char>, k: int, n: nat) -> int
    decreases s.len() - k,
{
    if k < 0 || k >= s.len() || n == 0 {
        k
    } else if s[k] == '}' {
        marker_end(s, k + 1, (n - 1) as nat)
    } else {
        marker_end(s, k + 1, n)
    }
}

/// The index of the `}` that brings the brace depth back to zero, scanning
/// from `i`: quoted runs and escaped characters do not count, and a
/// `${{ ... }}` marker is passed over whole.
pub open spec fn brace_end(s: Seq<char>, i: int, depth: int, in_str: bool, q: char, esc: bool) -> Option<int>
    decreases s.len() - i,
{
    if i < 0 || i >= s.len() {
        None
    } else {
        let c = s[i];
        if esc {
            brace_end(s, i + 1, depth, in_str, q, false)
        } else if c == '\\' {
            brace_end(s, i + 1, depth, in_str, q, true)
        } else if is_quote(c) {
            if !in_str {
                brace_end(s, i + 1, depth, true, c, false)
            } else if c == q {
                brace_end(s, i + 1, depth, false, q, false)
            } else {
                brace_end(s, i + 1, depth, true, q, false)
            }
        } else if in_str {
            brace_end(s, i + 1, depth, true, q, false)
        } else if c == '$' && i + 2 < s.len() && s[i + 1] == '{' && s[i + 2] == '{' {
            let k = marker_end(s, i + 3, 2);
            if i < k <= s.len() {
                brace_end(s, k, depth, false, q, false)
            } else {
                None
            }
        } else if c == '{' {
            brace_end(s, i + 1, depth + 1, false, q, false)
        } else if c == '}' {
            if depth - 1 == 0 {
                Some(i)
            } else {
                brace_end(s, i + 1, depth - 1, false, q, false)
            }
        } else {
            brace_end(s, i + 1, depth, false, q, false)
        }
    }
}

/// The balanced `{...}` object literal at the start of `s` (after leading
/// white space), if there is one.
pub open spec fn balanced_object(s: Seq<char>) -> Option<Seq<char>> {
    let t = trim_start(s);
    if t.len() > 0 && t[0] == '{' {
        match brace_end(t, 0, 0, false, '"', false) {
            Some(e) => Some(t.subrange(0, e + 1)),
            None => None,
        }
    } else {
        None
    }
}

proof fn lemma_marker_end(s: Seq<char>, k: int, n: nat)
    requires
        0 <= k <= s.len(),
    ensures
        k <= marker_end(s, k, n) <= s.len(),
    decreases s.len() - k,
{
    if k < s.len() && n > 0 {
        if s[k] == '}' {
            lemma_marker_end(s, k + 1, (n - 1) as nat);
        } else {
            lemma_marker_end(s, k + 1, n);
        }
    }
}

proof fn lemma_brace_end_bounds(s: Seq<char>, i: int, depth: int, in_str: bool, q: char, esc: bool)
    requires
        0 <= i,
    ensures
        brace_end(s, i, depth, in_str, q, esc) matches Some(e) ==> i <= e < s.len(),
    decreases s.len() - i,
{
    if i < s.len() {
        let c = s[i];
        if esc || c == '\\' || is_quote(c) || in_str {
            lemma_brace_end_bounds(s, i + 1, depth, in_str, q, false);
            lemma_brace_end_bounds(s, i + 1, depth, true, q, false);
            lemma_brace_end_bounds(s, i + 1, depth, false, q, false);
            lemma_brace_end_bounds(s, i + 1, depth, in_str, q, true);
            lemma_brace_end_bounds(s, i + 1, depth, true, c, false);
        } else if c == '$' && i + 2 < s.len() && s[i + 1] == '{' && s[i + 2] == '{' {
            let k = marker_end(s, i + 3, 2);
            if i < k <= s.len() {
                lemma_brace_end_bounds(s, k, depth, false, q, false);
            }
        } else {
            lemma_brace_end_bounds(s, i + 1, depth + 1, false, q, false);
            lemma_brace_end_bounds(s, i + 1, depth - 1, false, q, false);
            lemma_brace_end_bounds(s, i + 1, depth, false, q, false);
        }
    }
}

fn marker_end_exec(s: &Vec<char>, k: usize) -> (r: usize)
    requires
        k <= s.len(),
    ensures
        r == marker_end(s@, k as int, 2),
{
    let mut j = k;
    let mut n: usize = 2;
    while j < s.len() && n > 0
        invariant
            k <= j <= s.len(),
            n <= 2,
            marker_end(s@, j as int, n as nat) == marker_end(s@, k as int, 2),
        decreases s.len() - j,
    {
        if s[j] == '}' {
            n -= 1;
        }
        j += 1;
    }
    j
}

/// Cuts the balanced `{...}` object literal off the start of `s` (leading
/// white space skipped). Braces inside quoted runs, escaped braces and the
/// braces of `${{ ... }}` markers do not count.
pub fn extract_balanced_braces(s: &str) -> (r: Option<String>)
    ensures
        match balanced_object(s@) {
            Some(o) => r is Some && r->0@ == o,
            None => r is None,
        },
{
    let cs = chars_of(s);
    let a = skip_spaces(&cs, 0);
    proof {
        lemma_trim_start_is_skip(s@);
        lemma_skip_space_bounds(s@, 0);
    }
    let ghost t = trim_start(s@);
    if a >= cs.len() || cs[a] != '{' {
        return None;
    }
    assert(t[0] == cs@[a as int]);
    let mut i: usize = a + 1;
    let mut depth: usize = 1;
    let mut in_str = false;
    let mut q = '"';
    let mut esc = false;
    while i < cs.len()
        invariant
            a < i <= cs.len(),
            cs@ == s@,
            t == cs@.subrange(a as int, cs.len() as int),
            t == trim_start(s@),
            t.len() > 0 && t[0] == '{',
            1 <= depth <= i - a,
            brace_end(t, (i - a) as int, depth as int, in_str, q, esc) == brace_end(
                t,
                0,
                0,
                false,
                '"',
                false,
            ),
        decreases cs.len() - i,
    {
        let c = cs[i];
        assert(t[(i - a) as int] == c);
        if esc {
            esc = false;
            i += 1;
        } else if c == '\\' {
            esc = true;
            i += 1;
        } else if c == '"' || c == '\'' || c == '`' {
            if !in_str {
                in_str = true;
                q = c;
            } else if c == q {
                in_str = false;
            }
            i += 1;
        } else if in_str {
            i += 1;
        } else if c == '$' && cs.len() - i > 2 && cs[i + 1] == '{' && cs[i + 2] == '{' {
            assert(t[(i - a) + 1] == cs@[i + 1] && t[(i - a) + 2] == cs@[i + 2]);
            proof {
                lemma_marker_end(cs@, i + 3, 2);
                lemma_marker_shift(cs@, a as int, i + 3, 2);
            }
            i = marker_end_exec(&cs, i + 3);
        } else if c == '{' {
            depth += 1;
            i += 1;
        } else if c == '}' {
            if depth == 1 {
                assert(brace_end(t, (i - a) as int, depth as int, in_str, q, esc) == Some(
                    (i - a) as int,
                ));
                let o = string_of(&cs, a, i + 1);
                assert(o@ =~= t.subrange(0, (i - a) + 1));
                return Some(o);
            }
            depth -= 1;
            i += 1;
        } else {
            i += 1;
        }
    }
    None
}

proof fn lemma_marker_shift(s: Seq<char>, a: int, k: int, n: nat)
    requires
        0 <= a <= k <= s.len(),
    ensures
        marker_end(s.subrange(a, s.len() as int), k - a, n) == marker_end(s, k, n) - a,
    decreases s.len() - k,
{
    if k < s.len() && n > 0 {
        if s[k] == '}' {
            lemma_marker_shift(s, a, k + 1, (n - 1) as nat);
        } else {
            lemma_marker_shift(s, a, k + 1, n);
        }
    }
}

/// The three ways a source can export its workflow object.
pub enum ExportIdiom {
    /// `export const workflow = {...}`
    ExportConst,
    /// `export default {...}`
    ExportDefault,
    /// `module.exports = {...}`
    ModuleExports,
}

pub open spec fn lit_at(s: Seq<char>, p: int, w: Seq<char>) -> bool {
    0 <= p && p + w.len() <= s.len() && s.subrange(p, p + w.len()) == w
}

pub open spec fn w_export() -> Seq<char> {
    seq!['e', 'x', 'p', 'o', 'r', 't']
}

pub open spec fn w_const() -> Seq<char> {
    seq!['c', 'o', 'n', 's', 't']
}

pub open spec fn w_workflow() -> Seq<char> {
    seq!['w', 'o', 'r', 'k', 'f', 'l', 'o', 'w']
}

pub open spec fn w_default() -> Seq<char> {
    seq!['d', 'e', 'f', 'a', 'u', 'l', 't']
}

pub open spec fn w_module_exports() -> Seq<char> {
    seq!['m', 'o', 'd', 'u', 'l', 'e', '.', 'e', 'x', 'p', 'o', 'r', 't', 's']
}

/// `w` at `p` followed by at least one white-space character: the index
/// after that white space.
pub open spec fn word_then_space(s: Seq<char>, p: int, w: Seq<char>) -> Option<int> {
    if lit_at(s, p, w) && skip_space(s, p + w.len()) > p + w.len() {
        Some(skip_space(s, p + w.len()))
    } else {
        None
    }
}

/// `w` at `p`, white space, `=`, white space: the index after all of it.
pub open spec fn word_then_assign(s: Seq<char>, p: int, w: Seq<char>) -> Option<int> {
    let e = skip_space(s, p + w.len());
    if lit_at(s, p, w) && lit_at(s, e, seq!['=']) {
        Some(skip_space(s, e + 1))
    } else {
        None
    }
}

/// Where a match of the idiom's pattern that starts at `p` ends. The
/// patterns are `export\s+const\s+workflow\s*=\s*`, `export\s+default\s+`
/// and `module\.exports\s*=\s*`.
pub open spec fn idiom_end(k: ExportIdiom, s: Seq<char>, p: int) -> Option<int> {
    match k {
        ExportIdiom::ExportConst => match word_then_space(s, p, w_export()) {
            Some(b) => match word_then_space(s, b, w_const()) {
                Some(d) => word_then_assign(s, d, w_workflow()),
                None => None,
            },
            None => None,
        },
        ExportIdiom::ExportDefault => match word_then_space(s, p, w_export()) {
            Some(b) => word_then_space(s, b, w_default()),
            None => None,
        },
        ExportIdiom::ModuleExports => word_then_assign(s, p, w_module_exports()),
    }
}

/// The end of the leftmost match of the idiom's pattern at or after `q`.
pub open spec fn first_match(k: ExportIdiom, s: Seq<char>, q: int) -> Option<int>
    decreases s.len() + 1 - q,
{
    if q < 0 || q > s.len() {
        None
    } else {
        match idiom_end(k, s, q) {
            Some(e) => Some(e),
            None => first_match(k, s, q + 1),
        }
    }
}

/// Where the object literal of the export starts: after the first idiom, in
/// the order `export const workflow =`, `export default`, `module.exports =`,
/// whose pattern occurs in the text.
pub open spec fn export_start(s: Seq<char>) -> Option<int> {
    match first_match(ExportIdiom::ExportConst, s, 0) {
        Some(e) => Some(e),
        None => match first_match(ExportIdiom::ExportDefault, s, 0) {
            Some(e) => Some(e),
            None => first_match(ExportIdiom::ModuleExports, s, 0),
        },
    }
}

proof fn lemma_word_then_space(s: Seq<char>, p: int, w: Seq<char>)
    requires
        0 <= p,
    ensures
        word_then_space(s, p, w) matches Some(e) ==> p + w.len() < e <= s.len(),
{
    if lit_at(s, p, w) {
        lemma_skip_space_bounds(s, p + w.len());
    }
}

proof fn lemma_word_then_assign(s: Seq<char>, p: int, w: Seq<char>)
    requires
        0 <= p,
    ensures
        word_then_assign(s, p, w) matches Some(e) ==> p + w.len() < e <= s.len(),
{
    if lit_at(s, p, w) {
        lemma_skip_space_bounds(s, p + w.len());
        let e = skip_space(s, p + w.len());
        if lit_at(s, e, seq!['=']) {
            lemma_skip_space_bounds(s, e + 1);
        }
    }
}

proof fn lemma_idiom_end(k: ExportIdiom, s: Seq<char>, p: int)
    requires
        0 <= p,
    ensures
        idiom_end(k, s, p) matches Some(e) ==> p < e <= s.len(),
{
    lemma_word_then_space(s, p, w_export());
    lemma_word_then_assign(s, p, w_module_exports());
    if let Some(b) = word_then_space(s, p, w_export()) {
        lemma_word_then_space(s, b, w_const());
        lemma_word_then_space(s, b, w_default());
        if let Some(d) = word_then_space(s, b, w_const()) {
            lemma_word_then_assign(s, d, w_workflow());
        }
    }
}

proof fn lemma_first_match(k: ExportIdiom, s: Seq<char>, q: int)
    requires
        0 <= q,
    ensures
        first_match(k, s, q) matches Some(e) ==> 0 < e <= s.len(),
    decreases s.len() + 1 - q,
{
    if q <= s.len() {
        lemma_idiom_end(k, s, q);
        if idiom_end(k, s, q) is None {
            lemma_first_match(k, s, q + 1);
        }
    }
}

fn word_then_space_exec(s: &Vec<char>, p: usize, w: &Vec<char>) -> (r: Option<usize>)
    ensures
        opt_index(r) == word_then_space(s@, p as int, w@),
{
    if has_at(s, p, w) {
        let e = skip_spaces(s, p + w.len());
        if e > p + w.len() {
            return Some(e);
        }
    }
    None
}

fn word_then_assign_exec(s: &Vec<char>, p: usize, w: &Vec<char>) -> (r: Option<usize>)
    ensures
        opt_index(r) == word_then_assign(s@, p as int, w@),
{
    if has_at(s, p, w) {
        let e = skip_spaces(s, p + w.len());
        proof {
            lemma_skip_space_bounds(s@, p + w.len());
        }
        let eq = vec!['='];
        assert(eq@ =~= seq!['=']);
        if has_at(s, e, &eq) {
            return Some(skip_spaces(s, e + 1));
        }
    }
    None
}

pub open spec fn opt_index(r: Option<usize>) -> Option<int> {
    match r {
        Some(x) => Some(x as int),
        None => None,
    }
}

fn idiom_end_exec(k: &ExportIdiom, s: &Vec<char>, p: usize) -> (r: Option<usize>)
    ensures
        opt_index(r) == idiom_end(*k, s@, p as int),
{
    let export = vec!['e', 'x', 'p', 'o', 'r', 't'];
    proof {
        lemma_word_then_space(s@, p as int, w_export());
    }
    match k {
        ExportIdiom::ExportConst => match word_then_space_exec(s, p, &export) {
            Some(b) => {
                let cst = vec!['c', 'o', 'n', 's', 't'];
                proof {
                    lemma_word_then_space(s@, b as int, w_const());
                }
                match word_then_space_exec(s, b, &cst) {
                    Some(d) => {
                        let wf = vec!['w', 'o', 'r', 'k', 'f', 'l', 'o', 'w'];
                        word_then_assign_exec(s, d, &wf)
                    },
                    None => None,
                }
            },
            None => None,
        },
        ExportIdiom::ExportDefault => match word_then_space_exec(s, p, &export) {
            Some(b) => {
                let dft = vec!['d', 'e', 'f', 'a', 'u', 'l', 't'];
                word_then_space_exec(s, b, &dft)
            },
            None => None,
        },
        ExportIdiom::ModuleExports => {
            let me = vec!['m', 'o', 'd', 'u', 'l', 'e', '.', 'e', 'x', 'p', 'o', 'r', 't', 's'];
            word_then_assign_exec(s, p, &me)
        },
    }
}

fn find_idiom(k: &ExportIdiom, s: &Vec<char>) -> (r: Option<usize>)
    ensures
        opt_index(r) == first_match(*k, s@, 0),
{
    let mut q: usize = 0;
    while q < s.len()
        invariant
            q <= s.len(),
            first_match(*k, s@, q as int) == first_match(*k, s@, 0),
        decreases s.len() + 1 - q,
    {
        match idiom_end_exec(k, s, q) {
            Some(e) => {
                return Some(e);
            },
            None => {},
        }
        q += 1;
    }
    proof {
        lemma_idiom_end(*k, s@, q as int);
        assert(first_match(*k, s@, q + 1) is None);
    }
    None
}

/// After `export const workflow =`, where its first match ends.
pub fn try_export_const_workflow(s: &Vec<char>) -> (r: Option<usize>)
    ensures
        opt_index(r) == first_match(ExportIdiom::ExportConst, s@, 0),
{
    find_idiom(&ExportIdiom::ExportConst, s)
}

/// After `export default`, where its first match ends.
pub fn try_export_default(s: &Vec<char>) -> (r: Option<usize>)
    ensures
        opt_index(r) == first_match(ExportIdiom::ExportDefault, s@, 0),
{
    find_idiom(&ExportIdiom::ExportDefault, s)
}

/// After `module.exports =`, where its first match ends.
pub fn try_module_exports(s: &Vec<char>) -> (r: Option<usize>)
    ensures
        opt_index(r) == first_match(ExportIdiom::ModuleExports, s@, 0),
{
    find_idiom(&ExportIdiom::ModuleExports, s)
}

/// Where the exported object literal starts (see [`export_start`]).
pub fn find_export_start(s: &Vec<char>) -> (r: Option<usize>)
    ensures
        opt_index(r) == export_start(s@),
        r matches Some(e) ==> e <= s.len(),
{
    proof {
        lemma_first_match(ExportIdiom::ExportConst, s@, 0);
        lemma_first_match(ExportIdiom::ExportDefault, s@, 0);
        lemma_first_match(ExportIdiom::ModuleExports, s@, 0);
    }
    match try_export_const_workflow(s) {
        Some(e) => Some(e),
        None => match try_export_default(s) {
            Some(e) => Some(e),
            None => try_module_exports(s),
        },
    }
}

/// The first index at or after `k` holding `c`.
pub open spec fn next_at(s: Seq<char>, k: int, c: char) -> Option<int>
    decreases s.len() - k,
{
    if k < 0 || k >= s.len() {
        None
    } else if s[k] == c {
        Some(k)
    } else {
        next_at(s, k + 1, c)
    }
}

/// The text from `i` on with each backtick-delimited run turned into a
/// double-quoted one (its content kept as it is).
pub open spec fn ticks_from(s: Seq<char>, i: int) -> Seq<char>
    decreases s.len() - i,
{
    if i < 0 || i >= s.len() {
        Seq::empty()
    } else if s[i] == '`' {
        match next_at(s, i + 1, '`') {
            Some(j) => if i < j < s.len() {
                seq!['"'] + s.subrange(i + 1, j) + seq!['"'] + ticks_from(s, j + 1)
            } else {
                Seq::empty()
            },
            None => seq![s[i]] + ticks_from(s, i + 1),
        }
    } else {
        seq![s[i]] + ticks_from(s, i + 1)
    }
}

/// A single quote that is not escaped by the backslash before it.
pub open spec fn bare_quote(s: Seq<char>, k: int) -> bool {
    0 <= k < s.len() && s[k] == '\'' && !(k > 0 && s[k - 1] == '\\')
}

pub open spec fn next_bare(s: Seq<char>, k: int) -> Option<int>
    decreases s.len() - k,
{
    if k < 0 || k >= s.len() {
        None
    } else if bare_quote(s, k) {
        Some(k)
    } else {
        next_bare(s, k + 1)
    }
}

/// The text from `i` on with each single-quoted run turned into a
/// double-quoted one; an escaped quote `\'` neither opens nor closes a run and
/// is kept as it is.
pub open spec fn squotes_from(s: Seq<char>, i: int) -> Seq<char>
    decreases s.len() - i,
{
    if i < 0 || i >= s.len() {
        Seq::empty()
    } else if bare_quote(s, i) {
        match next_bare(s, i + 1) {
            Some(j) => if i < j < s.len() {
                seq!['"'] + s.subrange(i + 1, j) + seq!['"'] + squotes_from(s, j + 1)
            } else {
                Seq::empty()
            },
            None => seq![s[i]] + squotes_from(s, i + 1),
        }
    } else {
        seq![s[i]] + squotes_from(s, i + 1)
    }
}

/// The end of the run of identifier characters that starts at `k`.
pub open spec fn word_end(s: Seq<char>, k: int) -> int
    decreases s.len() - k,
{
    if 0 <= k < s.len() && is_word(s[k]) {
        word_end(s, k + 1)
    } else {
        k
    }
}

pub open spec fn at_line_start(s: Seq<char>, p: int) -> bool {
    p == 0 || (0 < p <= s.len() && s[p - 1] == '\n')
}

pub open spec fn is_key_delim(c: char) -> bool {
    c == '{' || c == '[' || c == ','
}

/// A bare key at `a`: identifier characters, white space, then `:`. Gives
/// the end of the key and the index after the colon.
pub open spec fn key_from(s: Seq<char>, a: int) -> Option<(int, int)> {
    let b = word_end(s, a);
    let c = skip_space(s, b);
    if 0 <= a < b && c < s.len() && s[c] == ':' {
        Some((b, c + 1))
    } else {
        None
    }
}

/// A bare key that may be quoted, found at `p`: either `p` starts a line and
/// the key starts there, or `p` holds `{`, `[` or `,` and the key follows
/// after white space. Gives the start and end of the key and the index after
/// the colon.
pub open spec fn key_match_at(s: Seq<char>, p: int) -> Option<(int, int, int)> {
    if 0 <= p < s.len() && at_line_start(s, p) && key_from(s, p) is Some {
        let be = key_from(s, p)->0;
        Some((p, be.0, be.1))
    } else if 0 <= p < s.len() && is_key_delim(s[p]) {
        let a = skip_space(s, p + 1);
        match key_from(s, a) {
            Some(be) => Some((a, be.0, be.1)),
            None => None,
        }
    } else {
        None
    }
}

/// The text from `i` on with every bare key found by [`key_match_at`]
/// written in double quotes (and the white space before its colon dropped).
pub open spec fn keys_from(s: Seq<char>, i: int) -> Seq<char>
    decreases s.len() - i,
{
    if i < 0 || i >= s.len() {
        Seq::empty()
    } else {
        match key_match_at(s, i) {
            Some(m) => if i <= m.0 < m.1 < m.2 <= s.len() {
                s.subrange(i, m.0) + seq!['"'] + s.subrange(m.0, m.1) + seq!['"', ':'] + keys_from(
                    s,
                    m.2,
                )
            } else {
                Seq::empty()
            },
            None => seq![s[i]] + keys_from(s, i + 1),
        }
    }
}

/// The text from `i` on with each comma that only white space separates from
/// a closing `}` or `]` removed, together with that white space.
pub open spec fn commas_from(s: Seq<char>, i: int) -> Seq<char>
    decreases s.len() - i,
{
    if i < 0 || i >= s.len() {
        Seq::empty()
    } else if s[i] == ',' {
        let j = skip_space(s, i + 1);
        if i < j < s.len() && (s[j] == '}' || s[j] == ']') {
            seq![s[j]] + commas_from(s, j + 1)
        } else {
            seq![','] + commas_from(s, i + 1)
        }
    } else {
        seq![s[i]] + commas_from(s, i + 1)
    }
}

/// An object literal in JavaScript notation rewritten into strict JSON
/// syntax: backtick and single-quoted strings become double-quoted, bare keys
/// are quoted, trailing commas go. `${{ expr }}` markers are carried through
/// as they stand: inside a string they are already valid JSON text.
pub open spec fn normalized(s: Seq<char>) -> Seq<char> {
    commas_from(keys_from(squotes_from(ticks_from(s, 0), 0), 0), 0)
}

proof fn lemma_next_at(s: Seq<char>, k: int, c: char)
    requires
        0 <= k,
    ensures
        next_at(s, k, c) matches Some(j) ==> k <= j < s.len() && s[j] == c,
    decreases s.len() - k,
{
    if k < s.len() && s[k] != c {
        lemma_next_at(s, k + 1, c);
    }
}

proof fn lemma_next_bare(s: Seq<char>, k: int)
    requires
        0 <= k,
    ensures
        next_bare(s, k) matches Some(j) ==> k <= j < s.len(),
    decreases s.len() - k,
{
    if k < s.len() && !bare_quote(s, k) {
        lemma_next_bare(s, k + 1);
    }
}

proof fn lemma_word_end(s: Seq<char>, k: int)
    requires
        0 <= k <= s.len(),
    ensures
        k <= word_end(s, k) <= s.len(),
    decreases s.len() - k,
{
    if k < s.len() && is_word(s[k]) {
        lemma_word_end(s, k + 1);
    }
}

proof fn lemma_key_from(s: Seq<char>, a: int)
    requires
        0 <= a <= s.len(),
    ensures
        key_from(s, a) matches Some(be) ==> a < be.0 < be.1 <= s.len(),
{
    lemma_word_end(s, a);
    lemma_skip_space_bounds(s, word_end(s, a));
}

proof fn lemma_key_match(s: Seq<char>, p: int)
    requires
        0 <= p,
    ensures
        key_match_at(s, p) matches Some(m) ==> p <= m.0 < m.1 < m.2 <= s.len(),
{
    if p < s.len() {
        lemma_key_from(s, p);
        lemma_skip_space_bounds(s, p + 1);
        lemma_key_from(s, skip_space(s, p + 1));
    }
}

fn next_at_exec(s: &Vec<char>, k: usize, c: char) -> (r: Option<usize>)
    requires
        k <= s.len(),
    ensures
        opt_index(r) == next_at(s@, k as int, c),
{
    let mut j = k;
    while j < s.len()
        invariant
            k <= j <= s.len(),
            next_at(s@, j as int, c) == next_at(s@, k as int, c),
        decreases s.len() - j,
    {
        if s[j] == c {
            return Some(j);
        }
        j += 1;
    }
    None
}

fn bare_quote_exec(s: &Vec<char>, k: usize) -> (r: bool)
    ensures
        r == bare_quote(s@, k as int),
{
    k < s.len() && s[k] == '\'' && !(k > 0 && s[k - 1] == '\\')
}

fn next_bare_exec(s: &Vec<char>, k: usize) -> (r: Option<usize>)
    requires
        k <= s.len(),
    ensures
        opt_index(r) == next_bare(s@, k as int),
{
    let mut j = k;
    while j < s.len()
        invariant
            k <= j <= s.len(),
            next_bare(s@, j as int) == next_bare(s@, k as int),
        decreases s.len() - j,
    {
        if bare_quote_exec(s, j) {
            return Some(j);
        }
        j += 1;
    }
    None
}

fn ticks_pass(s: &Vec<char>) -> (r: Vec<char>)
    ensures
        r@ == ticks_from(s@, 0),
{
    let mut out: Vec<char> = Vec::new();
    let mut i: usize = 0;
    while i < s.len()
        invariant
            i <= s.len(),
            out@ + ticks_from(s@, i as int) == ticks_from(s@, 0),
        decreases s.len() - i,
    {
        let ghost before = out@;
        let ghost i0 = i as int;
        if s[i] == '`' {
            proof {
                lemma_next_at(s@, i + 1, '`');
            }
            match next_at_exec(s, i + 1, '`') {
                Some(j) => {
                    out.push('"');
                    extend_range(&mut out, s, i + 1, j);
                    out.push('"');
                    i = j + 1;
                },
                None => {
                    out.push(s[i]);
                    i += 1;
                },
            }
        } else {
            out.push(s[i]);
            i += 1;
        }
        assert(out@ + ticks_from(s@, i as int) =~= before + ticks_from(s@, i0));
    }
    assert(out@ + ticks_from(s@, i as int) =~= out@);
    out
}

fn squotes_pass(s: &Vec<char>) -> (r: Vec<char>)
    ensures
        r@ == squotes_from(s@, 0),
{
    let mut out: Vec<char> = Vec::new();
    let mut i: usize = 0;
    while i < s.len()
        invariant
            i <= s.len(),
            out@ + squotes_from(s@, i as int) == squotes_from(s@, 0),
        decreases s.len() - i,
    {
        let ghost before = out@;
        let ghost i0 = i as int;
        if bare_quote_exec(s, i) {
            proof {
                lemma_next_bare(s@, i + 1);
            }
            match next_bare_exec(s, i + 1) {
                Some(j) => {
                    out.push('"');
                    extend_range(&mut out, s, i + 1, j);
                    out.push('"');
                    i = j + 1;
                },
                None => {
                    out.push(s[i]);
                    i += 1;
                },
            }
        } else {
            out.push(s[i]);
            i += 1;
        }
        assert(out@ + squotes_from(s@, i as int) =~= before + squotes_from(s@, i0));
    }
    assert(out@ + squotes_from(s@, i as int) =~= out@);
    out
}

fn word_end_exec(s: &Vec<char>, k: usize) -> (r: usize)
    requires
        k <= s.len(),
    ensures
        r == word_end(s@, k as int),
{
    let mut j = k;
    while j < s.len() && word(s[j])
        invariant
            k <= j <= s.len(),
            word_end(s@, j as int) == word_end(s@, k as int),
        decreases s.len() - j,
    {
        j += 1;
    }
    j
}

fn key_from_exec(s: &Vec<char>, a: usize) -> (r: Option<(usize, usize)>)
    requires
        a <= s.len(),
    ensures
        match key_from(s@, a as int) {
            Some(be) => r matches Some(x) && x.0 == be.0 && x.1 == be.1,
            None => r is None,
        },
{
    proof {
        lemma_key_from(s@, a as int);
        lemma_word_end(s@, a as int);
    }
    let b = word_end_exec(s, a);
    let c = skip_spaces(s, b);
    if a < b && c < s.len() && s[c] == ':' {
        Some((b, c + 1))
    } else {
        None
    }
}

fn key_match_exec(s: &Vec<char>, p: usize) -> (r: Option<(usize, usize, usize)>)
    requires
        p < s.len(),
    ensures
        match key_match_at(s@, p as int) {
            Some(m) => r matches Some(x) && x.0 == m.0 && x.1 == m.1 && x.2 == m.2,
            None => r is None,
        },
{
    if p == 0 || s[p - 1] == '\n' {
        match key_from_exec(s, p) {
            Some(be) => {
                return Some((p, be.0, be.1));
            },
            None => {},
        }
    }
    let c = s[p];
    if c == '{' || c == '[' || c == ',' {
        let a = skip_spaces(s, p + 1);
        proof {
            lemma_skip_space_bounds(s@, p + 1);
        }
        match key_from_exec(s, a) {
            Some(be) => Some((a, be.0, be.1)),
            None => None,
        }
    } else {
        None
    }
}

fn keys_pass(s: &Vec<char>) -> (r: Vec<char>)
    ensures
        r@ == keys_from(s@, 0),
{
    let mut out: Vec<char> = Vec::new();
    let mut i: usize = 0;
    while i < s.len()
        invariant
            i <= s.len(),
            out@ + keys_from(s@, i as int) == keys_from(s@, 0),
        decreases s.len() - i,
    {
        let ghost before = out@;
        let ghost i0 = i as int;
        proof {
            lemma_key_match(s@, i as int);
        }
        match key_match_exec(s, i) {
            Some(m) => {
                extend_range(&mut out, s, i, m.0);
                out.push('"');
                extend_range(&mut out, s, m.0, m.1);
                out.push('"');
                out.push(':');
                i = m.2;
            },
            None => {
                out.push(s[i]);
                i += 1;
            },
        }
        assert(out@ + keys_from(s@, i as int) =~= before + keys_from(s@, i0));
    }
    assert(out@ + keys_from(s@, i as int) =~= out@);
    out
}

fn commas_pass(s: &Vec<char>) -> (r: Vec<char>)
    ensures
        r@ == commas_from(s@, 0),
{
    let mut out: Vec<char> = Vec::new();
    let mut i: usize = 0;
    while i < s.len()
        invariant
            i <= s.len(),
            out@ + commas_from(s@, i as int) == commas_from(s@, 0),
        decreases s.len() - i,
    {
        let ghost before = out@;
        let ghost i0 = i as int;
        if s[i] == ',' {
            let j = skip_spaces(s, i + 1);
            proof {
                lemma_skip_space_bounds(s@, i + 1);
            }
            if j < s.len() && (s[j] == '}' || s[j] == ']') {
                out.push(s[j]);
                i = j + 1;
            } else {
                out.push(',');
                i += 1;
            }
        } else {
            out.push(s[i]);
            i += 1;
        }
        assert(out@ + commas_from(s@, i as int) =~= before + commas_from(s@, i0));
    }
    assert(out@ + commas_from(s@, i as int) =~= out@);
    out
}

/// Rewrites a JavaScript object literal into strict JSON syntax (see
/// [`normalized`]).
pub fn js_to_json(js: &str) -> (r: String)
    ensures
        r@ == normalized(js@),
{
    let s = chars_of(js);
    let a = ticks_pass(&s);
    let b = squotes_pass(&a);
    let c = keys_pass(&b);
    let d = commas_pass(&c);
    string_from(&d)
}

proof fn lemma_keys_untouched(s: Seq<char>, i: int)
    requires
        0 <= i <= s.len(),
        forall|k: int| 0 <= k < s.len() ==> !is_key_delim(#[trigger] s[k]) && s[k] != '\n',
        key_from(s, 0) is None,
    ensures
        keys_from(s, i) == s.subrange(i, s.len() as int),
    decreases s.len() - i,
{
    if i < s.len() {
        lemma_keys_untouched(s, i + 1);
        assert(key_match_at(s, i) is None);
        assert(seq![s[i]] + s.subrange(i + 1, s.len() as int) =~= s.subrange(i, s.len() as int));
    } else {
        assert(s.subrange(i, s.len() as int) =~= Seq::<char>::empty());
    }
}

/// Key quoting applies only right after `{`, `[`, `,` or at the start of a
/// line: a key is only ever found at such a place, so a value such as a URL,
/// whose colon follows other text, is not rewritten. A text holding none of
/// those delimiters and no line break, and not starting with a key, passes
/// through key quoting unchanged.
pub proof fn lemma_keys_quoted_only_after_delimiters(s: Seq<char>)
    ensures
        forall|p: int|
            #![trigger key_match_at(s, p)]
            key_match_at(s, p) is Some ==> at_line_start(s, p) || is_key_delim(s[p]),
        (forall|k: int| 0 <= k < s.len() ==> !is_key_delim(#[trigger] s[k]) && s[k] != '\n')
            && key_from(s, 0) is None ==> keys_from(s, 0) == s,
{
    if (forall|k: int| 0 <= k < s.len() ==> !is_key_delim(#[trigger] s[k]) && s[k] != '\n')
        && key_from(s, 0) is None {
        lemma_keys_untouched(s, 0);
        assert(s.subrange(0, s.len() as int) =~= s);
    }
}

/// The words key quoting wraps in double quotes are exactly the words of
/// its matches, and the word of a match either starts a line or follows a
/// `{`, `[` or `,` with only white space between: an identifier before a
/// colon in any other context (`https` in `"https://x"`, `10` in `"10:30"`)
/// is never quoted.
pub proof fn lemma_quoted_words_follow_delimiters(s: Seq<char>, p: int)
    ensures
        key_match_at(s, p) matches Some(m) ==> (m.0 == p && at_line_start(s, p)) || (
        is_key_delim(s[p]) && forall|k: int| p < k < m.0 ==> is_space(#[trigger] s[k])),
{
    if 0 <= p < s.len() {
        lemma_skip_space_bounds(s, p + 1);
    }
}

} // verus!
