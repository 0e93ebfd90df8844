use vstd::prelude::*;
use vstd::string::StringSliceAdditionalSpecFns;
use crate::context::{Context, JsonValueView, display_text};
use crate::error::OrchestratorResult;
use crate::text::{chars_between, chars_of, string_of};

verus! {

/// The Unicode `White_Space` property, which `str::trim` strips.
pub open spec fn is_white_space(c: char) -> bool {
    let u = c as u32;
    ||| 0x9 <= u <= 0xd
    ||| u == 0x20
    ||| u == 0x85
    ||| u == 0xa0
    ||| u == 0x1680
    ||| 0x2000 <= u <= 0x200a
    ||| u == 0x2028
    ||| u == 0x2029
    ||| u == 0x202f
    ||| u == 0x205f
    ||| u == 0x3000
}

fn white_space(c: char) -> (b: bool)
    ensures
        b == is_white_space(c),
{
    let u = c as u32;
    (0x9 <= u && u <= 0xd) || u == 0x20 || u == 0x85 || u == 0xa0 || u == 0x1680 || (0x2000 <= u
        && u <= 0x200a) || u == 0x2028 || u == 0x2029 || u == 0x202f || u == 0x205f || u == 0x3000
}

pub open spec fn trim_start(s: Seq<char>) -> Seq<char>
    decreases s.len(),
{
    if s.len() > 0 && is_white_space(s[0]) {
        trim_start(s.drop_first())
    } else {
        s
    }
}

pub open spec fn trim_end(s: Seq<char>) -> Seq<char>
    decreases s.len(),
{
    if s.len() > 0 && is_white_space(s.last()) {
        trim_end(s.drop_last())
    } else {
        s
    }
}

/// `s` without its leading and trailing white space.
pub open spec fn trim(s: Seq<char>) -> Seq<char> {
    trim_end(trim_start(s))
}

/// Bounds of `v[lo..hi]` once trimmed.
fn trim_bounds(v: &Vec<char>, lo: usize, hi: usize) -> (r: (usize, usize))
    requires
        lo <= hi <= v@.len(),
    ensures
        lo <= r.0 <= r.1 <= hi,
        v@.subrange(r.0 as int, r.1 as int) == trim(v@.subrange(lo as int, hi as int)),
{
    let ghost s = v@.subrange(lo as int, hi as int);
    let mut a = lo;
    while a < hi && white_space(v[a])
        invariant
            lo <= a <= hi <= v@.len(),
            trim_start(s) == trim_start(v@.subrange(a as int, hi as int)),
        decreases hi - a,
    {
        assert(v@.subrange(a as int, hi as int).drop_first() =~= v@.subrange(a + 1, hi as int));
        a = a + 1;
    }
    assert(trim_start(v@.subrange(a as int, hi as int)) == v@.subrange(a as int, hi as int));
    let mut b = hi;
    while b > a && white_space(v[b - 1])
        invariant
            lo <= a <= b <= hi <= v@.len(),
            trim(s) == trim_end(v@.subrange(a as int, b as int)),
        decreases b - a,
    {
        assert(v@.subrange(a as int, b as int).drop_last() =~= v@.subrange(a as int, b - 1));
        b = b - 1;
    }
    (a, b)
}

/// A `}}` starts at `i`.
pub open spec fn close_at(s: Seq<char>, i: int) -> bool {
    0 <= i && i + 1 < s.len() && s[i] == '}' && s[i + 1] == '}'
}

/// Where the first `}}` of `s` starts, if there is one.
pub open spec fn first_close(s: Seq<char>) -> Option<int> {
    if exists|i: int| close_at(s, i) && forall|j: int| 0 <= j < i ==> !close_at(s, j) {
        Some(choose|i: int| close_at(s, i) && forall|j: int| 0 <= j < i ==> !close_at(s, j))
    } else {
        None
    }
}

/// Where the first `|` of `s` stands, if there is one.
pub open spec fn first_bar(s: Seq<char>) -> Option<int> {
    if exists|i: int| 0 <= i < s.len() && s[i] == '|' && forall|j: int| 0 <= j < i ==> s[j] != '|' {
        Some(choose|i: int| 0 <= i < s.len() && s[i] == '|' && forall|j: int| 0 <= j < i ==> s[j] != '|')
    } else {
        None
    }
}

/// The text that a context gives for `key`: none when the key is absent or
/// holds `null`.
pub open spec fn lookup(ctx: Map<Seq<char>, JsonValueView>, key: Seq<char>) -> Option<Seq<char>> {
    if ctx.contains_key(key) && ctx[key] != JsonValueView::Null {
        Some(display_text(ctx[key]))
    } else {
        None
    }
}

/// What replaces `{{expr}}`. `expr` is `key` or `key|default`, each part
/// trimmed; the value of `key` wins, then the default, and with neither the
/// placeholder is left as it was.
pub open spec fn substitution(expr: Seq<char>, ctx: Map<Seq<char>, JsonValueView>) -> Seq<char> {
    let key = match first_bar(expr) {
        Some(p) => trim(expr.take(p)),
        None => trim(expr),
    };
    match lookup(ctx, key) {
        Some(text) => text,
        None => match first_bar(expr) {
            Some(p) => trim(expr.skip(p + 1)),
            None => seq!['{', '{'] + expr + seq!['}', '}'],
        },
    }
}

/// The rendering of a template `t`. A `{{` that no `}}` closes is not a
/// placeholder: its first brace is copied and rendering goes on after it.
pub open spec fn rendered(t: Seq<char>, ctx: Map<Seq<char>, JsonValueView>) -> Seq<char>
    decreases t.len(),
{
    if t.len() == 0 {
        Seq::empty()
    } else if t.len() >= 2 && t[0] == '{' && t[1] == '{' {
        match first_close(t.skip(2)) {
            Some(c) => substitution(t.subrange(2, c + 2), ctx) + rendered(t.skip(c + 4), ctx),
            None => seq!['{'] + rendered(t.skip(1), ctx),
        }
    } else {
        seq![t[0]] + rendered(t.skip(1), ctx)
    }
}

/// The rendering of a whole template.
pub open spec fn render_spec(t: Seq<char>, ctx: Map<Seq<char>, JsonValueView>) -> Seq<char> {
    rendered(t, ctx)
}

/// `t` holds `{{` somewhere.
pub open spec fn has_open(t: Seq<char>) -> bool {
    exists|i: int| 0 <= i && i + 1 < t.len() && #[trigger] t[i] == '{' && t[i + 1] == '{'
}

/// `t` holds `}}` somewhere.
pub open spec fn has_close(t: Seq<char>) -> bool {
    exists|i: int| close_at(t, i)
}

proof fn lemma_rendered_plain(t: Seq<char>, ctx: Map<Seq<char>, JsonValueView>)
    requires
        !has_open(t),
    ensures
        rendered(t, ctx) == t,
    decreases t.len(),
{
    if t.len() > 0 {
        let r = t.skip(1);
        assert(!has_open(r)) by {
            if has_open(r) {
                let i = choose|i: int| 0 <= i && i + 1 < r.len() && #[trigger] r[i] == '{' && r[i + 1] == '{';
                assert(t[i + 1] == '{' && t[i + 2] == '{');
            }
        }
        if t.len() >= 2 {
            if t[0] == '{' {
                assert(t[1] != '{');
            }
        }
        lemma_rendered_plain(r, ctx);
        assert(seq![t[0]] + r =~= t);
    }
}

/// Text without `{{` renders to itself.
pub proof fn lemma_plain_text_renders_to_itself(t: Seq<char>, ctx: Map<Seq<char>, JsonValueView>)
    requires
        !has_open(t),
    ensures
        render_spec(t, ctx) == t,
{
    lemma_rendered_plain(t, ctx);
}

/// Text without `}}` holds no placeholder and renders to itself.
pub proof fn lemma_unclosed_text_renders_to_itself(t: Seq<char>, ctx: Map<Seq<char>, JsonValueView>)
    requires
        !has_close(t),
    ensures
        render_spec(t, ctx) == t,
    decreases t.len(),
{
    if t.len() > 0 {
        let r = t.skip(1);
        assert(!has_close(r)) by {
            if has_close(r) {
                let i = choose|i: int| close_at(r, i);
                assert(close_at(t, i + 1));
            }
        }
        if t.len() >= 2 && t[0] == '{' && t[1] == '{' {
            assert(first_close(t.skip(2)) is None) by {
                let s = t.skip(2);
                if exists|i: int| close_at(s, i) && forall|j: int| 0 <= j < i ==> !close_at(s, j) {
                    let i = choose|i: int| close_at(s, i) && forall|j: int| 0 <= j < i ==> !close_at(s, j);
                    assert(close_at(t, i + 2));
                }
            }
        }
        lemma_unclosed_text_renders_to_itself(r, ctx);
        assert(seq![t[0]] + r =~= t);
    }
}

/// A template that is one placeholder `{{expr}}` (with no `}` inside) renders
/// to the substitution of `expr`: the value of its key, else its default,
/// else the placeholder itself.
pub proof fn lemma_placeholder_renders_to_substitution(expr: Seq<char>, ctx: Map<Seq<char>, JsonValueView>)
    requires
        forall|i: int| 0 <= i < expr.len() ==> expr[i] != '}',
    ensures
        render_spec(seq!['{', '{'] + expr + seq!['}', '}'], ctx) == substitution(expr, ctx),
{
    let t = seq!['{', '{'] + expr + seq!['}', '}'];
    let s = t.skip(2);
    assert(s =~= expr + seq!['}', '}']);
    let n = expr.len() as int;
    assert(close_at(s, n));
    assert forall|j: int| 0 <= j < n implies !close_at(s, j) by {
        assert(s[j] == expr[j]);
    }
    let w = choose|k: int| close_at(s, k) && forall|j: int| 0 <= j < k ==> !close_at(s, j);
    assert(w == n) by {
        if w < n {
            assert(!close_at(s, w));
        }
        if n < w {
            assert(!close_at(s, n));
        }
    }
    assert(first_close(s) == Some(n));
    assert(t.subrange(2, n + 2) =~= expr);
    assert(t.skip(n + 4) =~= Seq::<char>::empty());
    assert(rendered(t.skip(n + 4), ctx) == Seq::<char>::empty());
    assert(substitution(expr, ctx) + Seq::<char>::empty() =~= substitution(expr, ctx));
}

/// `s` holds no `}` and no `|`, and has no white space at either end: it
/// can stand as a key, or as a default, between `{{` and `}}`.
pub open spec fn plain_word(s: Seq<char>) -> bool {
    &&& forall|i: int| 0 <= i < s.len() ==> s[i] != '}' && s[i] != '|'
    &&& s.len() > 0 ==> !is_white_space(s[0]) && !is_white_space(s.last())
}

proof fn lemma_trim_plain(s: Seq<char>)
    requires
        s.len() > 0 ==> !is_white_space(s[0]) && !is_white_space(s.last()),
    ensures
        trim(s) == s,
{
}

proof fn lemma_no_bar(s: Seq<char>)
    requires
        forall|i: int| 0 <= i < s.len() ==> s[i] != '|',
    ensures
        first_bar(s) is None,
{
}

proof fn lemma_bar_at(k: Seq<char>, d: Seq<char>)
    requires
        forall|i: int| 0 <= i < k.len() ==> k[i] != '|',
    ensures
        first_bar(k + seq!['|'] + d) == Some(k.len() as int),
        (k + seq!['|'] + d).take(k.len() as int) == k,
        (k + seq!['|'] + d).skip(k.len() as int + 1) == d,
{
    let e = k + seq!['|'] + d;
    let n = k.len() as int;
    assert(e[n] == '|');
    assert forall|j: int| 0 <= j < n implies e[j] != '|' by {
        assert(e[j] == k[j]);
    }
    let w = choose|i: int| 0 <= i < e.len() && e[i] == '|' && forall|j: int| 0 <= j < i ==> e[j] != '|';
    assert(w == n) by {
        if w < n {
            assert(e[w] != '|');
        }
        if n < w {
            assert(e[n] != '|');
        }
    }
    assert(e.take(n) =~= k);
    assert(e.skip(n + 1) =~= d);
}

/// What `{{key}}` and `{{key|default}}` render to, for a key and a default
/// that stand as they are written: where the context holds the key with a
/// value that is not `null`, that value's text, whatever it is (the empty
/// text included); else the default, and without a default the placeholder
/// itself, unchanged.
pub proof fn lemma_placeholder_values(k: Seq<char>, d: Seq<char>, ctx: Map<Seq<char>, JsonValueView>)
    requires
        plain_word(k),
        plain_word(d),
    ensures
        ctx.contains_key(k) && ctx[k] != JsonValueView::Null ==> {
            &&& render_spec(seq!['{', '{'] + k + seq!['}', '}'], ctx) == display_text(ctx[k])
            &&& render_spec(seq!['{', '{'] + (k + seq!['|'] + d) + seq!['}', '}'], ctx) == display_text(ctx[k])
        },
        !(ctx.contains_key(k) && ctx[k] != JsonValueView::Null) ==> {
            &&& render_spec(seq!['{', '{'] + k + seq!['}', '}'], ctx) == seq!['{', '{'] + k + seq!['}', '}']
            &&& render_spec(seq!['{', '{'] + (k + seq!['|'] + d) + seq!['}', '}'], ctx) == d
        },
{
    let kd = k + seq!['|'] + d;
    assert forall|i: int| 0 <= i < kd.len() implies kd[i] != '}' by {
        if i < k.len() {
            assert(kd[i] == k[i]);
        } else if i > k.len() {
            assert(kd[i] == d[i - k.len() - 1]);
        }
    }
    lemma_placeholder_renders_to_substitution(k, ctx);
    lemma_placeholder_renders_to_substitution(kd, ctx);
    lemma_no_bar(k);
    lemma_trim_plain(k);
    lemma_trim_plain(d);
    lemma_bar_at(k, d);
}

/// A `}}` starts at byte `i`.
pub open spec fn close_at_byte(b: Seq<u8>, i: int) -> bool {
    0 <= i && i + 1 < b.len() && b[i] == 0x7d && b[i + 1] == 0x7d
}

/// The byte offset in `s` of its first `}}`.
pub fn find_close(s: &str) -> (r: Option<usize>)
    ensures
        match r {
            Some(i) => close_at_byte(s.spec_bytes(), i as int) && forall|j: int|
                0 <= j < i ==> !close_at_byte(s.spec_bytes(), j),
            None => forall|j: int| !close_at_byte(s.spec_bytes(), j),
        },
{
    let b = s.as_bytes();
    let mut i: usize = 0;
    while i < b.len() && i + 1 < b.len()
        invariant
            i <= b@.len(),
            b@ == s.spec_bytes(),
            forall|j: int| 0 <= j < i ==> !close_at_byte(b@, j),
        decreases b@.len() - i,
    {
        if b[i] == 0x7d && b[i + 1] == 0x7d {
            return Some(i);
        }
        i = i + 1;
    }
    None
}

/// The index in `v` of the first `}}` at or after `from`.
fn close_after(v: &Vec<char>, from: usize) -> (r: Option<usize>)
    requires
        from <= v@.len(),
    ensures
        match r {
            Some(c) => from <= c && first_close(v@.skip(from as int)) == Some(c - from),
            None => first_close(v@.skip(from as int)) is None,
        },
{
    let ghost s = v@.skip(from as int);
    let mut i = from;
    while i < v.len() && i + 1 < v.len()
        invariant
            from <= i <= v@.len(),
            s == v@.skip(from as int),
            forall|j: int| 0 <= j < i - from ==> !close_at(s, j),
        decreases v@.len() - i,
    {
        if v[i] == '}' && v[i + 1] == '}' {
            let ghost c = i - from;
            assert(close_at(s, c as int));
            let ghost w = choose|k: int| close_at(s, k) && forall|j: int| 0 <= j < k ==> !close_at(s, j);
            assert(w == c) by {
                if w < c {
                    assert(!close_at(s, w));
                }
                if c < w {
                    assert(!close_at(s, c as int));
                }
            }
            return Some(i);
        }
        i = i + 1;
    }
    assert forall|k: int| !(close_at(s, k) && forall|j: int| 0 <= j < k ==> !close_at(s, j)) by {
        if close_at(s, k) {
            assert(k < i - from);
        }
    }
    None
}

/// The index in `v` of the first `|` in `v[lo..hi]`.
fn bar_between(v: &Vec<char>, lo: usize, hi: usize) -> (r: Option<usize>)
    requires
        lo <= hi <= v@.len(),
    ensures
        match r {
            Some(p) => lo <= p < hi && first_bar(v@.subrange(lo as int, hi as int)) == Some(p - lo),
            None => first_bar(v@.subrange(lo as int, hi as int)) is None,
        },
{
    let ghost s = v@.subrange(lo as int, hi as int);
    let mut i = lo;
    while i < hi
        invariant
            lo <= i <= hi <= v@.len(),
            s == v@.subrange(lo as int, hi as int),
            forall|j: int| 0 <= j < i - lo ==> s[j] != '|',
        decreases hi - i,
    {
        if v[i] == '|' {
            let ghost p = i - lo;
            let ghost w = choose|k: int|
                0 <= k < s.len() && s[k] == '|' && forall|j: int| 0 <= j < k ==> s[j] != '|';
            assert(s[p as int] == '|');
            assert(w == p) by {
                if w < p {
                    assert(s[w] != '|');
                }
                if p < w {
                    assert(s[p as int] != '|');
                }
            }
            return Some(i);
        }
        i = i + 1;
    }
    None
}

/// The text that replaces the placeholder `{{v[lo..hi]}}`.
fn substitute(v: &Vec<char>, lo: usize, hi: usize, ctx: &Context) -> (r: Vec<char>)
    requires
        lo <= hi <= v@.len(),
    ensures
        r@ == substitution(v@.subrange(lo as int, hi as int), ctx@),
{
    let ghost expr = v@.subrange(lo as int, hi as int);
    let bar = bar_between(v, lo, hi);
    let key_end = match bar {
        Some(p) => p,
        None => hi,
    };
    let (ka, kb) = trim_bounds(v, lo, key_end);
    proof {
        match bar {
            Some(p) => {
                assert(v@.subrange(lo as int, p as int) =~= expr.take(p - lo));
            },
            None => {},
        }
    }
    let key = string_of(&chars_between(v, ka, kb));
    match ctx.get(key.as_str()) {
        Some(val) => {
            if !val.is_null() {
                return chars_of(val.to_text().as_str());
            }
        },
        None => {},
    }
    match bar {
        Some(p) => {
            let (da, db) = trim_bounds(v, p + 1, hi);
            assert(v@.subrange(p + 1, hi as int) =~= expr.skip(p - lo + 1));
            chars_between(v, da, db)
        },
        None => {
            let mut r: Vec<char> = Vec::new();
            r.push('{');
            r.push('{');
            let mut i = lo;
            while i < hi
                invariant
                    lo <= i <= hi <= v@.len(),
                    r@ == seq!['{', '{'] + v@.subrange(lo as int, i as int),
                decreases hi - i,
            {
                r.push(v[i]);
                i = i + 1;
                assert(r@ =~= seq!['{', '{'] + v@.subrange(lo as int, i as int));
            }
            r.push('}');
            r.push('}');
            assert(r@ =~= seq!['{', '{'] + expr + seq!['}', '}']);
            r
        },
    }
}

/// Renders a `{{key}}` template, replacing each placeholder with the value
/// that the context holds for its key. `{{key|default}}` gives `default`
/// where the key is absent (or `null`); a placeholder with neither is left as
/// it was. Values that are not strings appear as their JSON text.
pub fn render(template: &str, ctx: &Context) -> (r: OrchestratorResult<String>)
    ensures
        r matches Ok(s) && s@ == render_spec(template@, ctx@),
{
    let t = chars_of(template);
    let mut out: Vec<char> = Vec::new();
    let ghost whole = rendered(t@, ctx@);
    let mut i: usize = 0;
    assert(t@.skip(0) =~= t@);
    while i < t.len()
        invariant
            i <= t@.len(),
            out@ + rendered(t@.skip(i as int), ctx@) == whole,
        decreases t@.len() - i,
    {
        let ghost rest = t@.skip(i as int);
        if i + 1 < t.len() && t[i] == '{' && t[i + 1] == '{' {
            assert(rest.skip(2) =~= t@.skip(i + 2));
            match close_after(&t, i + 2) {
                Some(c) => {
                    let ghost k = c - (i + 2);
                    assert(close_at(rest.skip(2), k as int));
                    let sub = substitute(&t, i + 2, c, ctx);
                    assert(rest.subrange(2, k + 2) =~= t@.subrange(i + 2, c as int));
                    assert(rest.skip(k + 4) =~= t@.skip(c + 2));
                    let ghost before = out@;
                    let mut j: usize = 0;
                    while j < sub.len()
                        invariant
                            j <= sub@.len(),
                            out@ == before + sub@.take(j as int),
                        decreases sub@.len() - j,
                    {
                        out.push(sub[j]);
                        j = j + 1;
                        assert(out@ =~= before + sub@.take(j as int));
                    }
                    assert(sub@.take(j as int) =~= sub@);
                    assert(out@ + rendered(t@.skip(c + 2), ctx@) =~= before + (sub@
                        + rendered(t@.skip(c + 2), ctx@)));
                    i = c + 2;
                },
                None => {
                    out.push('{');
                    assert(rest.skip(1) =~= t@.skip(i + 1));
                    i = i + 1;
                },
            }
        } else {
            out.push(t[i]);
            assert(rest.skip(1) =~= t@.skip(i + 1));
            i = i + 1;
        }
    }
    assert(t@.skip(i as int) =~= Seq::<char>::empty());
    Ok(string_of(&out))
}

} // verus!
