//! `{{path}}` placeholders: finding them in strings and replacing those that
//! name a value of the run context.
use crate::json::{
    all_digits, compact, digits_u64, digits_value, lemma_view_items, lemma_view_members, member,
    opt_ref_view, view_items, view_members, Json, JsonValue,
};
use crate::text::{
    char_views, extend_range, extend_str, is_space, split_chars, split_on, string_from, trim,
    trim_end, trim_start, trimmed,
};
use vstd::prelude::*;

verus! {

/// The index of the first `}}` at or after `k`, provided no line break comes
/// before it (a placeholder stays on one line).
pub open spec fn close_at(s: Seq<char>, k: int) -> Option<int>
    decreases s.len() - k,
{
    if k < 0 || k + 1 >= s.len() {
        None
    } else if s[k] == '}' && s[k + 1] == '}' {
        Some(k)
    } else if s[k] == '\n' {
        None
    } else {
        close_at(s, k + 1)
    }
}

/// The end of the placeholder `{{ ... }}` that starts at `p`, if one does:
/// the shortest such run, as the pattern `\{\{(.*?)\}\}` finds it.
pub open spec fn placeholder_end(s: Seq<char>, p: int) -> Option<int> {
    if 0 <= p && p + 1 < s.len() && s[p] == '{' && s[p + 1] == '{' {
        match close_at(s, p + 2) {
            Some(k) => Some(k + 2),
            None => None,
        }
    } else {
        None
    }
}

pub open spec fn is_path_char(c: char) -> bool {
    ('a' <= c && c <= 'z') || ('A' <= c && c <= 'Z') || ('0' <= c && c <= '9') || c == '_' || c
        == '.' || c == '-'
}

/// A plain variable reference: letters, digits, `_`, `.` and `-` only.
pub open spec fn is_var_path(t: Seq<char>) -> bool {
    t.len() > 0 && forall|i: int| 0 <= i < t.len() ==> #[trigger] is_path_char(t[i])
}

/// The `.`-separated segments of a path.
pub open spec fn split_dots(s: Seq<char>) -> Seq<Seq<char>> {
    split_on(s, '.')
}

/// A segment read as an array position: decimal digits without a leading
/// zero (other than `0` itself).
pub open spec fn index_token(tok: Seq<char>) -> Option<nat> {
    if tok.len() > 0 && all_digits(tok) && (tok[0] != '0' || tok.len() == 1) {
        Some(digits_value(tok))
    } else {
        None
    }
}

/// One segment down: a member of an object, or an element of an array.
pub open spec fn step(v: Json, tok: Seq<char>) -> Option<Json> {
    match v {
        Json::Object(m) => member(m, tok),
        Json::Array(a) => match index_token(tok) {
            Some(i) => if i < a.len() {
                Some(a[i as int])
            } else {
                None
            },
            None => None,
        },
        _ => None,
    }
}

/// The value reached from `v` along the segments `toks`.
pub open spec fn lookup(v: Json, toks: Seq<Seq<char>>) -> Option<Json>
    decreases toks.len(),
{
    if toks.len() == 0 {
        Some(v)
    } else {
        match step(v, toks[0]) {
            Some(w) => lookup(w, toks.drop_first()),
            None => None,
        }
    }
}

/// What the inner text of a placeholder stands for in the context: a value
/// only when, trimmed, it is a plain variable path that names one.
pub open spec fn resolve(inner: Seq<char>, ctx: Json) -> Option<Json> {
    let t = trim(inner);
    if is_var_path(t) {
        lookup(ctx, split_dots(t))
    } else {
        None
    }
}

/// How a resolved value reads inside a longer string: a string's own text,
/// anything else in compact JSON.
pub open spec fn splice(v: Json) -> Seq<char> {
    match v {
        Json::Str(x) => x,
        _ => compact(v),
    }
}

/// What the placeholder `s[p..e]` becomes: the spliced value it resolves to,
/// or its own text.
pub open spec fn replacement(s: Seq<char>, p: int, e: int, ctx: Json) -> Seq<char> {
    match resolve(s.subrange(p + 2, e - 2), ctx) {
        Some(v) => splice(v),
        None => s.subrange(p, e),
    }
}

/// `s` from `p` on with each placeholder that resolves replaced, and every
/// other placeholder kept as it stands.
pub open spec fn subst_text(s: Seq<char>, ctx: Json, p: int) -> Seq<char>
    decreases s.len() - p,
{
    if p < 0 || p >= s.len() {
        Seq::empty()
    } else {
        match placeholder_end(s, p) {
            Some(e) => if p < e <= s.len() {
                replacement(s, p, e, ctx) + subst_text(s, ctx, e)
            } else {
                Seq::empty()
            },
            None => seq![s[p]] + subst_text(s, ctx, p + 1),
        }
    }
}

/// A string after substitution. When the whole string is one placeholder that
/// resolves, the result is the resolved value itself, of whatever type.
pub open spec fn subst_string(s: Seq<char>, ctx: Json) -> Json {
    if placeholder_end(s, 0) == Some(s.len() as int) {
        match resolve(s.subrange(2, s.len() - 2), ctx) {
            Some(v) => v,
            None => Json::Str(s),
        }
    } else {
        Json::Str(subst_text(s, ctx, 0))
    }
}

/// A value with every string in it substituted, arrays and objects walked
/// element by element, and other values unchanged.
pub open spec fn substitute(v: Json, ctx: Json) -> Json
    decreases v,
{
    match v {
        Json::Str(s) => subst_string(s, ctx),
        Json::Array(a) => Json::Array(subst_items(a, ctx)),
        Json::Object(m) => Json::Object(subst_members(m, ctx)),
        _ => v,
    }
}

pub open spec fn subst_items(a: Seq<Json>, ctx: Json) -> Seq<Json>
    decreases a,
{
    if a.len() == 0 {
        Seq::empty()
    } else {
        subst_items(a.drop_last(), ctx).push(substitute(a.last(), ctx))
    }
}

pub open spec fn subst_members(m: Seq<(Seq<char>, Json)>, ctx: Json) -> Seq<(Seq<char>, Json)>
    decreases m,
{
    if m.len() == 0 {
        Seq::empty()
    } else {
        subst_members(m.drop_last(), ctx).push((m.last().0, substitute(m.last().1, ctx)))
    }
}

pub proof fn lemma_subst_items(a: Seq<Json>, ctx: Json)
    ensures
        subst_items(a, ctx).len() == a.len(),
        forall|i: int|
            0 <= i < a.len() ==> #[trigger] subst_items(a, ctx)[i] == substitute(a[i], ctx),
    decreases a.len(),
{
    if a.len() > 0 {
        lemma_subst_items(a.drop_last(), ctx);
    }
}

pub proof fn lemma_subst_members(m: Seq<(Seq<char>, Json)>, ctx: Json)
    ensures
        subst_members(m, ctx).len() == m.len(),
        forall|i: int|
            0 <= i < m.len() ==> #[trigger] subst_members(m, ctx)[i] == (
                m[i].0,
                substitute(m[i].1, ctx),
            ),
    decreases m.len(),
{
    if m.len() > 0 {
        lemma_subst_members(m.drop_last(), ctx);
    }
}

pub proof fn lemma_close_at_bounds(s: Seq<char>, k: int)
    requires
        0 <= k,
    ensures
        close_at(s, k) matches Some(j) ==> k <= j && j + 1 < s.len(),
    decreases s.len() - k,
{
    if k + 1 < s.len() && !(s[k] == '}' && s[k + 1] == '}') && s[k] != '\n' {
        lemma_close_at_bounds(s, k + 1);
    }
}

pub proof fn lemma_placeholder_bounds(s: Seq<char>, p: int)
    ensures
        placeholder_end(s, p) matches Some(e) ==> 0 <= p && p + 4 <= e <= s.len(),
{
    if 0 <= p && p + 1 < s.len() && s[p] == '{' && s[p + 1] == '{' {
        lemma_close_at_bounds(s, p + 2);
    }
}

fn close_at_exec(s: &Vec<char>, k: usize) -> (r: Option<usize>)
    ensures
        opt_int(r) == close_at(s@, k as int),
{
    let mut j = k;
    while s.len() > 0 && j < s.len() - 1
        invariant
            k <= j,
            close_at(s@, j as int) == close_at(s@, k as int),
        decreases s.len() - j,
    {
        if s[j] == '}' && s[j + 1] == '}' {
            return Some(j);
        }
        if s[j] == '\n' {
            return None;
        }
        j += 1;
    }
    None
}

pub open spec fn opt_int(r: Option<usize>) -> Option<int> {
    match r {
        Some(x) => Some(x as int),
        None => None,
    }
}

/// The end of the placeholder that starts at `p`, if one does.
pub fn placeholder_at(s: &Vec<char>, p: usize) -> (r: Option<usize>)
    ensures
        opt_int(r) == placeholder_end(s@, p as int),
{
    if p < s.len() && s.len() - p > 1 && s[p] == '{' && s[p + 1] == '{' {
        match close_at_exec(s, p + 2) {
            Some(k) => {
                proof {
                    lemma_close_at_bounds(s@, p + 2);
                }
                Some(k + 2)
            },
            None => None,
        }
    } else {
        None
    }
}

fn is_path_text(t: &Vec<char>) -> (r: bool)
    ensures
        r == is_var_path(t@),
{
    if t.len() == 0 {
        return false;
    }
    let mut i: usize = 0;
    while i < t.len()
        invariant
            i <= t.len(),
            forall|j: int| 0 <= j < i ==> #[trigger] is_path_char(t@[j]),
        decreases t.len() - i,
    {
        let c = t[i];
        if !(('a' <= c && c <= 'z') || ('A' <= c && c <= 'Z') || ('0' <= c && c <= '9') || c
            == '_' || c == '.' || c == '-') {
            assert(!is_path_char(t@[i as int]));
            return false;
        }
        i += 1;
    }
    true
}

fn index_of_token(tok: &Vec<char>) -> (r: Option<u64>)
    ensures
        match index_token(tok@) {
            Some(i) => i <= u64::MAX ==> r == Some(i as u64),
            None => r is None,
        },
        r matches Some(x) ==> index_token(tok@) == Some(x as nat),
{
    if tok.len() == 0 || (tok[0] == '0' && tok.len() != 1) {
        return None;
    }
    digits_u64(tok)
}

fn step_exec<'a>(v: &'a JsonValue, tok: &Vec<char>) -> (r: Option<&'a JsonValue>)
    ensures
        opt_ref_view(r) == step(v@, tok@),
{
    match v {
        JsonValue::Object(m) => {
            let key = string_from(tok);
            assert(v@ == Json::Object(view_members(m@)));
            let k = key.as_str();
            assert(k@ == tok@);
            let r = v.get(k);
            r
        },
        JsonValue::Array(a) => {
            proof {
                lemma_view_items(a@);
            }
            match index_of_token(tok) {
                Some(i) => {
                    if i < a.len() as u64 {
                        Some(&a[i as usize])
                    } else {
                        None
                    }
                },
                None => {
                    assert(a@.len() == a.len());
                    None
                },
            }
        },
        _ => None,
    }
}

/// The value that `path` (segments separated by `.`) names in `ctx`.
pub fn lookup_path<'a>(ctx: &'a JsonValue, path: &Vec<char>) -> (r: Option<&'a JsonValue>)
    ensures
        opt_ref_view(r) == lookup(ctx@, split_dots(path@)),
{
    let toks = split_chars(path, '.');
    let ghost all = char_views(toks@);
    let mut cur: &JsonValue = ctx;
    let mut j: usize = 0;
    assert(all.subrange(0, all.len() as int) =~= all);
    while j < toks.len()
        invariant
            j <= toks.len(),
            all == char_views(toks@),
            all == split_dots(path@),
            lookup(ctx@, all) == lookup(cur@, all.subrange(j as int, all.len() as int)),
        decreases toks.len() - j,
    {
        let ghost rest = all.subrange(j as int, all.len() as int);
        assert(rest[0] == toks@[j as int]@);
        assert(rest.drop_first() =~= all.subrange(j + 1, all.len() as int));
        match step_exec(cur, &toks[j]) {
            Some(w) => {
                cur = w;
            },
            None => {
                return None;
            },
        }
        j += 1;
    }
    Some(cur)
}

/// What the inner text `s[lo..hi]` of a placeholder stands for in `ctx`.
fn resolve_exec<'a>(s: &Vec<char>, lo: usize, hi: usize, ctx: &'a JsonValue) -> (r: Option<
    &'a JsonValue,
>)
    requires
        lo <= hi <= s.len(),
    ensures
        opt_ref_view(r) == resolve(s@.subrange(lo as int, hi as int), ctx@),
{
    let t = trimmed(s, lo, hi);
    if is_path_text(&t) {
        lookup_path(ctx, &t)
    } else {
        None
    }
}

fn substitute_text(s: &Vec<char>, ctx: &JsonValue) -> (r: Vec<char>)
    ensures
        r@ == subst_text(s@, ctx@, 0),
{
    let mut out: Vec<char> = Vec::new();
    let mut p: usize = 0;
    while p < s.len()
        invariant
            p <= s.len(),
            out@ + subst_text(s@, ctx@, p as int) == subst_text(s@, ctx@, 0),
        decreases s.len() - p,
    {
        let ghost before = out@;
        proof {
            lemma_placeholder_bounds(s@, p as int);
        }
        match placeholder_at(s, p) {
            Some(e) => {
                match resolve_exec(s, p + 2, e - 2, ctx) {
                    Some(v) => {
                        match v {
                            JsonValue::Str(x) => extend_str(&mut out, x.as_str()),
                            _ => v.write_compact(&mut out),
                        }
                    },
                    None => extend_range(&mut out, s, p, e),
                }
                assert(out@ + subst_text(s@, ctx@, e as int) =~= before + subst_text(
                    s@,
                    ctx@,
                    p as int,
                ));
                p = e;
            },
            None => {
                out.push(s[p]);
                assert(out@ + subst_text(s@, ctx@, p + 1) =~= before + subst_text(
                    s@,
                    ctx@,
                    p as int,
                ));
                p += 1;
            },
        }
    }
    assert(out@ =~= out@ + subst_text(s@, ctx@, p as int));
    out
}

fn substitute_string(s: &String, ctx: &JsonValue) -> (r: JsonValue)
    ensures
        r@ == subst_string(s@, ctx@),
{
    let cs = crate::text::chars_of(s.as_str());
    proof {
        lemma_placeholder_bounds(cs@, 0);
    }
    match placeholder_at(&cs, 0) {
        Some(e) => {
            if e == cs.len() {
                match resolve_exec(&cs, 2, e - 2, ctx) {
                    Some(v) => {
                        return v.deep_copy();
                    },
                    None => {
                        return JsonValue::Str(s.clone());
                    },
                }
            }
        },
        None => {},
    }
    let t = substitute_text(&cs, ctx);
    JsonValue::Str(string_from(&t))
}

/// `v` with every `{{path}}` placeholder that names a value of `ctx`
/// replaced (see [`substitute`]).
pub fn substituted(v: &JsonValue, ctx: &JsonValue) -> (r: JsonValue)
    ensures
        r@ == substitute(v@, ctx@),
    decreases v,
{
    match v {
        JsonValue::Str(s) => substitute_string(s, ctx),
        JsonValue::Array(a) => {
            let mut out: Vec<JsonValue> = Vec::new();
            let mut i: usize = 0;
            while i < a.len()
                invariant
                    *v == JsonValue::Array(*a),
                    i <= a.len(),
                    out.len() == i,
                    forall|k: int| 0 <= k < i ==> (#[trigger] out@[k])@ == substitute(a@[k]@, ctx@),
                decreases a.len() - i,
            {
                proof {
                    assert(decreases_to!(*v => (*v)->Array_0));
                    assert(decreases_to!(*a => a[i as int]));
                }
                out.push(substituted(&a[i], ctx));
                i += 1;
            }
            proof {
                lemma_view_items(out@);
                lemma_view_items(a@);
                lemma_subst_items(view_items(a@), ctx@);
                assert(view_items(out@) =~= subst_items(view_items(a@), ctx@));
            }
            JsonValue::Array(out)
        },
        JsonValue::Object(m) => {
            let mut out: Vec<(String, JsonValue)> = Vec::new();
            let mut i: usize = 0;
            while i < m.len()
                invariant
                    *v == JsonValue::Object(*m),
                    i <= m.len(),
                    out.len() == i,
                    forall|k: int|
                        0 <= k < i ==> (#[trigger] out@[k]).0@ == m@[k].0@ && out@[k].1@
                            == substitute(m@[k].1@, ctx@),
                decreases m.len() - i,
            {
                proof {
                    assert(decreases_to!(*v => (*v)->Object_0));
                    assert(decreases_to!(*m => m[i as int]));
                    assert(decreases_to!(m[i as int] => m[i as int].1));
                }
                out.push((m[i].0.clone(), substituted(&m[i].1, ctx)));
                i += 1;
            }
            proof {
                lemma_view_members(out@);
                lemma_view_members(m@);
                lemma_subst_members(view_members(m@), ctx@);
                assert(view_members(out@) =~= subst_members(view_members(m@), ctx@));
            }
            JsonValue::Object(out)
        },
        _ => v.deep_copy(),
    }
}

/// Replaces, in place, every `{{path}}` placeholder of `args` that names a
/// value of `variables`.
pub fn substitute_variables(args: &mut JsonValue, variables: &JsonValue)
    ensures
        final(args)@ == substitute(old(args)@, variables@),
{
    let r = substituted(args, variables);
    *args = r;
}

/// No placeholder starts anywhere in `s`.
pub open spec fn text_plain(s: Seq<char>) -> bool {
    forall|p: int| 0 <= p < s.len() ==> #[trigger] placeholder_end(s, p) is None
}

/// No string anywhere in `v` holds a placeholder.
pub open spec fn no_placeholders(v: Json) -> bool
    decreases v,
{
    match v {
        Json::Str(s) => text_plain(s),
        Json::Array(a) => items_plain(a),
        Json::Object(m) => members_plain(m),
        _ => true,
    }
}

pub open spec fn items_plain(a: Seq<Json>) -> bool
    decreases a,
{
    a.len() == 0 || (items_plain(a.drop_last()) && no_placeholders(a.last()))
}

pub open spec fn members_plain(m: Seq<(Seq<char>, Json)>) -> bool
    decreases m,
{
    m.len() == 0 || (members_plain(m.drop_last()) && no_placeholders(m.last().1))
}

/// No placeholder of `s` names a value of `ctx`.
pub open spec fn none_resolves(s: Seq<char>, ctx: Json) -> bool {
    forall|p: int|
        #![trigger placeholder_end(s, p)]
        placeholder_end(s, p) matches Some(e) ==> resolve(s.subrange(p + 2, e - 2), ctx) is None
}

proof fn lemma_text_verbatim(s: Seq<char>, ctx: Json, p: int)
    requires
        0 <= p <= s.len(),
        none_resolves(s, ctx),
    ensures
        subst_text(s, ctx, p) == s.subrange(p, s.len() as int),
    decreases s.len() - p,
{
    if p < s.len() {
        lemma_placeholder_bounds(s, p);
        match placeholder_end(s, p) {
            Some(e) => {
                lemma_text_verbatim(s, ctx, e);
                assert(s.subrange(p, e) + s.subrange(e, s.len() as int) =~= s.subrange(
                    p,
                    s.len() as int,
                ));
            },
            None => {
                lemma_text_verbatim(s, ctx, p + 1);
                assert(seq![s[p]] + s.subrange(p + 1, s.len() as int) =~= s.subrange(
                    p,
                    s.len() as int,
                ));
            },
        }
    } else {
        assert(s.subrange(p, s.len() as int) =~= Seq::<char>::empty());
    }
}

/// A placeholder whose path names nothing in the context is left as it
/// stands, whether it is the whole string or sits inside a longer one: a
/// string none of whose placeholders resolves comes out unchanged.
pub proof fn lemma_unresolved_left_verbatim(s: Seq<char>, ctx: Json)
    requires
        none_resolves(s, ctx),
    ensures
        substitute(Json::Str(s), ctx) == Json::Str(s),
{
    lemma_text_verbatim(s, ctx, 0);
    assert(s.subrange(0, s.len() as int) =~= s);
}

proof fn lemma_plain_unchanged(v: Json, ctx: Json)
    requires
        no_placeholders(v),
    ensures
        substitute(v, ctx) == v,
    decreases v,
{
    match v {
        Json::Str(s) => {
            lemma_unresolved_left_verbatim(s, ctx);
        },
        Json::Array(a) => {
            lemma_items_unchanged(a, ctx);
        },
        Json::Object(m) => {
            lemma_members_unchanged(m, ctx);
        },
        _ => {},
    }
}

proof fn lemma_items_unchanged(a: Seq<Json>, ctx: Json)
    requires
        items_plain(a),
    ensures
        subst_items(a, ctx) == a,
    decreases a,
{
    if a.len() > 0 {
        lemma_items_unchanged(a.drop_last(), ctx);
        lemma_plain_unchanged(a.last(), ctx);
        assert(a.drop_last().push(a.last()) =~= a);
    }
}

proof fn lemma_members_unchanged(m: Seq<(Seq<char>, Json)>, ctx: Json)
    requires
        members_plain(m),
    ensures
        subst_members(m, ctx) == m,
    decreases m,
{
    if m.len() > 0 {
        lemma_members_unchanged(m.drop_last(), ctx);
        lemma_plain_unchanged(m.last().1, ctx);
        assert(m.drop_last().push((m.last().0, m.last().1)) =~= m);
    }
}

/// Substitution is idempotent on a value that holds no placeholder: it leaves
/// such a value as it is, so substituting twice gives what substituting once
/// gives.
pub proof fn lemma_substitute_idempotent_without_placeholders(v: Json, ctx: Json)
    requires
        no_placeholders(v),
    ensures
        substitute(v, ctx) == v,
        substitute(substitute(v, ctx), ctx) == substitute(v, ctx),
{
    lemma_plain_unchanged(v, ctx);
}

proof fn lemma_trim_start_over_space(w: Seq<char>, t: Seq<char>)
    requires
        forall|i: int| 0 <= i < w.len() ==> is_space(#[trigger] w[i]),
        t.len() > 0,
        !is_space(t[0]),
    ensures
        trim_start(w + t) == t,
    decreases w.len(),
{
    if w.len() == 0 {
        assert(w + t =~= t);
    } else {
        assert((w + t).drop_first() =~= w.drop_first() + t);
        lemma_trim_start_over_space(w.drop_first(), t);
    }
}

proof fn lemma_trim_end_over_space(t: Seq<char>, w: Seq<char>)
    requires
        forall|i: int| 0 <= i < w.len() ==> is_space(#[trigger] w[i]),
        t.len() > 0,
        !is_space(t.last()),
    ensures
        trim_end(t + w) == t,
    decreases w.len(),
{
    if w.len() == 0 {
        assert(t + w =~= t);
    } else {
        assert((t + w).drop_last() =~= t + w.drop_last());
        lemma_trim_end_over_space(t, w.drop_last());
    }
}

proof fn lemma_close_at_end(s: Seq<char>, k: int)
    requires
        s.len() >= 4,
        2 <= k <= s.len() - 2,
        s[s.len() - 2] == '}' && s[s.len() - 1] == '}',
        forall|i: int| 2 <= i < s.len() - 2 ==> #[trigger] s[i] != '}' && s[i] != '\n',
    ensures
        close_at(s, k) == Some(s.len() - 2),
    decreases s.len() - k,
{
    if k < s.len() - 2 {
        lemma_close_at_end(s, k + 1);
    }
}

/// A string that is one placeholder `{{ path }}` (white space without line
/// breaks allowed around the path) whose plain path names a value of the
/// context is replaced by that value itself, whatever its type.
pub proof fn lemma_whole_placeholder_replaced(
    w1: Seq<char>,
    p: Seq<char>,
    w2: Seq<char>,
    ctx: Json,
)
    requires
        forall|i: int| 0 <= i < w1.len() ==> is_space(#[trigger] w1[i]) && w1[i] != '\n',
        forall|i: int| 0 <= i < w2.len() ==> is_space(#[trigger] w2[i]) && w2[i] != '\n',
        is_var_path(p),
        lookup(ctx, split_dots(p)) is Some,
    ensures
        substitute(Json::Str(seq!['{', '{'] + w1 + p + w2 + seq!['}', '}']), ctx) == lookup(
            ctx,
            split_dots(p),
        )->0,
{
    let inner = w1 + p + w2;
    let s = seq!['{', '{'] + inner + seq!['}', '}'];
    assert(s.len() == inner.len() + 4);
    assert forall|i: int| 2 <= i < s.len() - 2 implies #[trigger] s[i] != '}' && s[i] != '\n' by {
        assert(s[i] == inner[i - 2]);
        if i - 2 < w1.len() {
            assert(inner[i - 2] == w1[i - 2]);
        } else if i - 2 < w1.len() + p.len() {
            assert(inner[i - 2] == p[i - 2 - w1.len()]);
            assert(is_path_char(p[i - 2 - w1.len()]));
        } else {
            assert(inner[i - 2] == w2[i - 2 - w1.len() - p.len()]);
        }
    }
    lemma_close_at_end(s, 2);
    assert(s.subrange(2, s.len() - 2) =~= inner);
    assert(is_path_char(p[0]) && is_path_char(p.last()));
    assert(inner =~= w1 + (p + w2));
    lemma_trim_start_over_space(w1, p + w2);
    lemma_trim_end_over_space(p, w2);
    assert(trim(inner) == p);
    assert(placeholder_end(s, 0) == Some(s.len() as int));
    assert(resolve(s.subrange(2, s.len() - 2), ctx) == lookup(ctx, split_dots(p)));
    assert(seq!['{', '{'] + w1 + p + w2 + seq!['}', '}'] =~= s);
}

} // verus!
