//! Absolute paths modelled as a sequence of name components.
//!
//! Every path handled by the synchronization core is absolute; a value of
//! [`AbsPath`] with components `["home", "u", "proj"]` stands for the
//! filesystem path `/home/u/proj`, and the empty component list stands for
//! the root `/`.

use vstd::prelude::*;
use vstd::string::StringSliceAdditionalSpecFns;

verus! {

/// The path separator byte `/`.
pub const SLASH: u8 = 47;

/// The byte `.`, used by the special directory names `.` and `..`.
pub const DOT: u8 = 46;

/// A valid path component: nonempty, contains no separator, and is not one
/// of the special names `.` and `..`.
pub open spec fn valid_comp(c: Seq<u8>) -> bool {
    &&& c.len() > 0
    &&& c != seq![DOT]
    &&& c != seq![DOT, DOT]
    &&& forall|i: int| 0 <= i < c.len() ==> c[i] != SLASH
}

/// No byte of `t` equals `sep`.
pub open spec fn no_byte(t: Seq<u8>, sep: u8) -> bool {
    forall|i: int| 0 <= i < t.len() ==> t[i] != sep
}

/// Splitting a byte sequence at every occurrence of `sep`.  The result always
/// holds one token more than `s` holds separators; empty tokens are kept, so
/// `split_at_sep("", _)` is `[""]` and `split_at_sep("a/", '/')` is `["a", ""]`.
pub open spec fn split_at_sep(s: Seq<u8>, sep: u8) -> Seq<Seq<u8>>
    decreases s.len(),
{
    if s.len() == 0 {
        seq![Seq::<u8>::empty()]
    } else if s.last() == sep {
        split_at_sep(s.drop_last(), sep).push(Seq::<u8>::empty())
    } else {
        let r = split_at_sep(s.drop_last(), sep);
        r.update(r.len() - 1, r.last().push(s.last()))
    }
}

pub proof fn lemma_split_len(s: Seq<u8>, sep: u8)
    ensures
        split_at_sep(s, sep).len() >= 1,
    decreases s.len(),
{
    if s.len() > 0 {
        lemma_split_len(s.drop_last(), sep);
    }
}

/// No token produced by splitting contains the separator.
pub proof fn lemma_split_no_sep(s: Seq<u8>, sep: u8)
    ensures
        forall|i: int|
            0 <= i < split_at_sep(s, sep).len() ==> no_byte(#[trigger] split_at_sep(s, sep)[i], sep),
    decreases s.len(),
{
    if s.len() > 0 {
        lemma_split_no_sep(s.drop_last(), sep);
        lemma_split_len(s.drop_last(), sep);
    }
}

/// Splits `v[from..]` at every occurrence of `sep`.
pub fn split_from(v: &Vec<u8>, from: usize, sep: u8) -> (r: Vec<Vec<u8>>)
    requires
        from <= v@.len(),
    ensures
        r.deep_view() == split_at_sep(v@.skip(from as int), sep),
{
    let mut out: Vec<Vec<u8>> = Vec::new();
    let mut cur: Vec<u8> = Vec::new();
    let mut i: usize = from;
    while i < v.len()
        invariant
            from <= i <= v@.len(),
            out.deep_view().push(cur@) == split_at_sep(v@.subrange(from as int, i as int), sep),
        decreases v@.len() - i,
    {
        let ghost pre = v@.subrange(from as int, i as int);
        let ghost prev_out = out.deep_view();
        let ghost prev_cur = cur@;
        if v[i] == sep {
            out.push(cur);
            cur = Vec::new();
        } else {
            let b = v[i];
            cur.push(b);
        }
        proof {
            let post = v@.subrange(from as int, i + 1);
            assert(post.drop_last() =~= pre);
            assert(post.last() == v@[i as int]);
            assert(out.deep_view() =~~= if v@[i as int] == sep {
                prev_out.push(prev_cur)
            } else {
                prev_out
            });
            if v@[i as int] != sep {
                let r = split_at_sep(pre, sep);
                assert(r.update(r.len() - 1, r.last().push(v@[i as int])) =~= prev_out.push(
                    prev_cur.push(v@[i as int]),
                ));
            }
        }
        i = i + 1;
    }
    proof {
        assert(v@.subrange(from as int, v@.len() as int) =~= v@.skip(from as int));
    }
    let ghost prev_out = out.deep_view();
    let ghost last_cur = cur@;
    out.push(cur);
    proof {
        assert(out.deep_view() =~~= prev_out.push(last_cur));
    }
    out
}

/// The position of the first occurrence of `b` in `s`; `s.len()` if absent.
pub open spec fn first_ix(s: Seq<u8>, b: u8) -> int
    decreases s.len(),
{
    if s.len() == 0 {
        0
    } else if s[0] == b {
        0
    } else {
        1 + first_ix(s.drop_first(), b)
    }
}

pub proof fn lemma_first_ix(s: Seq<u8>, b: u8)
    ensures
        0 <= first_ix(s, b) <= s.len(),
        first_ix(s, b) < s.len() ==> s[first_ix(s, b)] == b,
        forall|j: int| 0 <= j < first_ix(s, b) ==> s[j] != b,
        first_ix(s, b) == s.len() <==> no_byte(s, b),
    decreases s.len(),
{
    if s.len() > 0 && s[0] != b {
        lemma_first_ix(s.drop_first(), b);
        assert forall|j: int| 0 <= j < first_ix(s, b) implies s[j] != b by {
            if j > 0 {
                assert(s.drop_first()[j - 1] == s[j]);
            }
        }
        if first_ix(s, b) < s.len() {
            assert(s.drop_first()[first_ix(s.drop_first(), b)] == s[first_ix(s, b)]);
        }
        if first_ix(s, b) == s.len() {
            assert forall|j: int| 0 <= j < s.len() implies s[j] != b by {
                if j > 0 {
                    assert(s.drop_first()[j - 1] == s[j]);
                }
            }
        }
        if no_byte(s, b) {
            assert forall|j: int| 0 <= j < s.drop_first().len() implies s.drop_first()[j] != b by {
                assert(s.drop_first()[j] == s[j + 1]);
            }
        }
    }
}

/// The position of the first occurrence of `b` in `v`, if any.
pub fn find_byte(v: &Vec<u8>, b: u8) -> (r: Option<usize>)
    ensures
        match r {
            Some(i) => i == first_ix(v@, b) && i < v@.len(),
            None => first_ix(v@, b) == v@.len() && no_byte(v@, b),
        },
{
    let mut i: usize = 0;
    while i < v.len()
        invariant
            i <= v@.len(),
            forall|j: int| 0 <= j < i ==> v@[j] != b,
        decreases v@.len() - i,
    {
        if v[i] == b {
            proof {
                lemma_first_ix(v@, b);
            }
            return Some(i);
        }
        i = i + 1;
    }
    proof {
        lemma_first_ix(v@, b);
    }
    None
}

/// The bytes of `v` from `from` (inclusive) to `to` (exclusive).
pub fn bytes_range(v: &Vec<u8>, from: usize, to: usize) -> (r: Vec<u8>)
    requires
        from <= to <= v@.len(),
    ensures
        r@ == v@.subrange(from as int, to as int),
{
    let mut r: Vec<u8> = Vec::new();
    let mut i: usize = from;
    while i < to
        invariant
            from <= i <= to <= v@.len(),
            r@ == v@.subrange(from as int, i as int),
        decreases to - i,
    {
        r.push(v[i]);
        proof {
            assert(v@.subrange(from as int, i + 1) =~= v@.subrange(from as int, i as int).push(
                v@[i as int],
            ));
        }
        i = i + 1;
    }
    r
}

/// Appends the bytes of a string to a byte vector.
pub fn push_str_bytes(out: &mut Vec<u8>, s: &str)
    ensures
        final(out)@ == old(out)@ + s.spec_bytes(),
{
    let ghost prev = out@;
    let bytes = s.as_bytes();
    let mut i: usize = 0;
    while i < bytes.len()
        invariant
            i <= bytes@.len(),
            bytes@ == s.spec_bytes(),
            out@ == prev + bytes@.take(i as int),
        decreases bytes@.len() - i,
    {
        out.push(bytes[i]);
        proof {
            assert(prev + bytes@.take(i + 1) =~= (prev + bytes@.take(i as int)).push(
                bytes@[i as int],
            ));
        }
        i = i + 1;
    }
    proof {
        assert(prev + bytes@.take(bytes@.len() as int) =~= prev + bytes@);
    }
}

/// One step of path normalization: empty tokens and `.` vanish, `..` pops
/// the last component kept so far (and is dropped at the root, as `/..` is
/// `/`), and every other token becomes a component.
pub open spec fn norm_step(stack: Seq<Seq<u8>>, t: Seq<u8>) -> Seq<Seq<u8>> {
    if t.len() == 0 || t == seq![DOT] {
        stack
    } else if t == seq![DOT, DOT] {
        if stack.len() == 0 {
            stack
        } else {
            stack.drop_last()
        }
    } else {
        stack.push(t)
    }
}

/// Folds [`norm_step`] over a token list, left to right.
pub open spec fn normalize(tokens: Seq<Seq<u8>>) -> Seq<Seq<u8>>
    decreases tokens.len(),
{
    if tokens.len() == 0 {
        Seq::empty()
    } else {
        norm_step(normalize(tokens.drop_last()), tokens.last())
    }
}

/// Normalizing tokens free of separators yields valid components only.
pub proof fn lemma_normalize_wf(tokens: Seq<Seq<u8>>)
    requires
        forall|i: int| 0 <= i < tokens.len() ==> no_byte(#[trigger] tokens[i], SLASH),
    ensures
        forall|i: int|
            0 <= i < normalize(tokens).len() ==> valid_comp(#[trigger] normalize(tokens)[i]),
    decreases tokens.len(),
{
    if tokens.len() > 0 {
        assert forall|i: int| 0 <= i < tokens.drop_last().len() implies no_byte(
            #[trigger] tokens.drop_last()[i],
            SLASH,
        ) by {
            assert(tokens.drop_last()[i] == tokens[i]);
        }
        lemma_normalize_wf(tokens.drop_last());
        assert(tokens.last() == tokens[tokens.len() - 1]);
        assert(no_byte(tokens.last(), SLASH));
        let st = normalize(tokens.drop_last());
        let t = tokens.last();
        assert forall|i: int| 0 <= i < normalize(tokens).len() implies valid_comp(
            #[trigger] normalize(tokens)[i],
        ) by {
            if t.len() == 0 || t == seq![DOT] {
                assert(normalize(tokens)[i] == st[i]);
            } else if t == seq![DOT, DOT] {
                if st.len() > 0 {
                    assert(normalize(tokens)[i] == st.drop_last()[i]);
                    assert(st.drop_last()[i] == st[i]);
                } else {
                    assert(normalize(tokens)[i] == st[i]);
                }
            } else {
                assert(normalize(tokens) == st.push(t));
                if i < st.len() {
                    assert(normalize(tokens)[i] == st[i]);
                } else {
                    assert(normalize(tokens)[i] == t);
                }
            }
        }
    }
}

/// The tilde byte `~`.
pub const TILDE: u8 = 126;

/// Whether a raw byte path starts with `~` alone or `~/`, and is therefore
/// rewritten against a home directory.
pub open spec fn tilde_form(raw: Seq<u8>) -> bool {
    raw.len() >= 1 && raw[0] == TILDE && (raw.len() == 1 || raw[1] == SLASH)
}

/// The absolute components a raw byte path resolves to.  A path starting
/// with `/` is taken from the root; one starting with `~` alone or `~/` is
/// taken from `home`; anything else is relative and taken from `base`.
/// Normalization then removes empty, `.` and `..` tokens.
pub open spec fn resolve_spec(raw: Seq<u8>, home: Seq<Seq<u8>>, base: Seq<Seq<u8>>) -> Seq<
    Seq<u8>,
> {
    if raw.len() > 0 && raw[0] == SLASH {
        normalize(split_at_sep(raw, SLASH))
    } else if tilde_form(raw) {
        normalize(home + split_at_sep(raw.skip(1), SLASH))
    } else {
        normalize(base + split_at_sep(raw, SLASH))
    }
}

/// The rendering of a nonempty component list: `/` before each component.
pub open spec fn render_comps(comps: Seq<Seq<u8>>) -> Seq<u8>
    decreases comps.len(),
{
    if comps.len() == 0 {
        Seq::empty()
    } else {
        render_comps(comps.drop_last()) + seq![SLASH] + comps.last()
    }
}

/// The textual form of an absolute path; the root renders as `/`.
pub open spec fn render_path(comps: Seq<Seq<u8>>) -> Seq<u8> {
    if comps.len() == 0 {
        seq![SLASH]
    } else {
        render_comps(comps)
    }
}

/// Appending separator-free bytes extends the final token of a split.
pub proof fn lemma_split_append_nosep(s: Seq<u8>, t: Seq<u8>, sep: u8)
    requires
        no_byte(t, sep),
    ensures
        split_at_sep(s + t, sep) == split_at_sep(s, sep).update(
            split_at_sep(s, sep).len() - 1,
            split_at_sep(s, sep).last() + t,
        ),
    decreases t.len(),
{
    lemma_split_len(s, sep);
    let r = split_at_sep(s, sep);
    if t.len() == 0 {
        assert(s + t =~= s);
        assert(r.last() + t =~= r.last());
        assert(r.update(r.len() - 1, r.last() + t) =~= r);
    } else {
        assert forall|i: int| 0 <= i < t.drop_last().len() implies t.drop_last()[i] != sep by {
            assert(t.drop_last()[i] == t[i]);
        }
        lemma_split_append_nosep(s, t.drop_last(), sep);
        let st = s + t.drop_last();
        assert(s + t =~= st.push(t.last()));
        assert(t.last() == t[t.len() - 1]);
        assert((s + t).last() != sep);
        assert((s + t).drop_last() =~= st);
        let rm = split_at_sep(st, sep);
        assert(split_at_sep(s + t, sep) == rm.update(rm.len() - 1, rm.last().push(t.last())));
        assert(rm == r.update(r.len() - 1, r.last() + t.drop_last()));
        assert(rm.len() == r.len());
        assert(rm.last() == r.last() + t.drop_last());
        assert(r.last() + t =~= (r.last() + t.drop_last()).push(t.last()));
        assert(rm.update(rm.len() - 1, rm.last().push(t.last())) =~= r.update(
            r.len() - 1,
            r.last() + t,
        ));
    }
}

/// The rendering of a nonempty component list starts with the separator.
pub proof fn lemma_render_first(comps: Seq<Seq<u8>>)
    requires
        comps.len() >= 1,
    ensures
        render_comps(comps).len() >= 1,
        render_comps(comps)[0] == SLASH,
    decreases comps.len(),
{
    if comps.len() > 1 {
        lemma_render_first(comps.drop_last());
    } else {
        reveal_with_fuel(render_comps, 2);
        assert(comps.drop_last().len() == 0);
        assert(render_comps(comps) =~= seq![SLASH] + comps.last());
    }
}

/// Splitting the rendering of valid components gives one empty token (from
/// the leading separator) followed by the components themselves.
pub proof fn lemma_split_render(comps: Seq<Seq<u8>>, sep: u8)
    requires
        comps.len() >= 1,
        forall|i: int| 0 <= i < comps.len() ==> valid_comp(#[trigger] comps[i]),
        sep == SLASH,
    ensures
        split_at_sep(render_comps(comps), SLASH) == seq![Seq::<u8>::empty()] + comps,
    decreases comps.len(),
{
    let e = Seq::<u8>::empty();
    let c = comps.last();
    assert(c == comps[comps.len() - 1]);
    assert(valid_comp(c));
    if comps.len() == 1 {
        reveal_with_fuel(render_comps, 2);
        assert(comps.drop_last().len() == 0);
        assert(render_comps(comps) =~= seq![SLASH] + c);
        assert(seq![SLASH] =~= e.push(SLASH));
        assert(split_at_sep(e, SLASH) =~= seq![e]);
        assert(seq![SLASH].drop_last() =~= e);
        assert(split_at_sep(seq![SLASH], SLASH) =~= seq![e, e]);
        lemma_split_append_nosep(seq![SLASH], c, SLASH);
        assert(split_at_sep(seq![SLASH] + c, SLASH) =~= seq![e, c]);
        assert(seq![e, c] =~= seq![e] + comps);
    } else {
        assert forall|i: int| 0 <= i < comps.drop_last().len() implies valid_comp(
            #[trigger] comps.drop_last()[i],
        ) by {
            assert(comps.drop_last()[i] == comps[i]);
        }
        lemma_split_render(comps.drop_last(), sep);
        let pre = render_comps(comps.drop_last());
        assert(render_comps(comps) =~= (pre.push(SLASH)) + c);
        assert(pre.push(SLASH).drop_last() =~= pre);
        assert(split_at_sep(pre.push(SLASH), SLASH) == split_at_sep(pre, SLASH).push(e));
        lemma_split_append_nosep(pre.push(SLASH), c, SLASH);
        let rp = split_at_sep(pre.push(SLASH), SLASH);
        assert(rp.last() == e);
        assert(e + c =~= c);
        assert(rp.update(rp.len() - 1, rp.last() + c) =~= (seq![e] + comps.drop_last()).push(c));
        assert((seq![e] + comps.drop_last()).push(c) =~= seq![e] + comps);
    }
}

/// A leading empty token vanishes under normalization of valid components.
pub proof fn lemma_normalize_empty_head(comps: Seq<Seq<u8>>)
    requires
        forall|i: int| 0 <= i < comps.len() ==> valid_comp(#[trigger] comps[i]),
    ensures
        normalize(seq![Seq::<u8>::empty()] + comps) == comps,
    decreases comps.len(),
{
    let e = Seq::<u8>::empty();
    if comps.len() == 0 {
        assert(seq![e] + comps =~= seq![e]);
        assert((seq![e]).drop_last() =~= Seq::<Seq<u8>>::empty());
        assert(normalize(seq![e]) == norm_step(normalize(Seq::<Seq<u8>>::empty()), e));
    } else {
        assert forall|i: int| 0 <= i < comps.drop_last().len() implies valid_comp(
            #[trigger] comps.drop_last()[i],
        ) by {
            assert(comps.drop_last()[i] == comps[i]);
        }
        lemma_normalize_empty_head(comps.drop_last());
        let full = seq![e] + comps;
        assert(full.drop_last() =~= seq![e] + comps.drop_last());
        assert(full.last() == comps.last());
        assert(comps.last() == comps[comps.len() - 1]);
        assert(valid_comp(comps.last()));
        assert(normalize(full) == comps.drop_last().push(comps.last()));
        assert(comps.drop_last().push(comps.last()) =~= comps);
    }
}

/// Law: path resolution is idempotent.  Rendering an already-resolved,
/// well-formed absolute path and resolving the rendering again — against any
/// home and any base directory — gives back the same path.
pub proof fn lemma_resolve_idempotent(p: AbsPath, home: Seq<Seq<u8>>, base: Seq<Seq<u8>>)
    requires
        p.wf(),
    ensures
        resolve_spec(render_path(p@), home, base) == p@,
{
    let e = Seq::<u8>::empty();
    if p@.len() == 0 {
        let raw = seq![SLASH];
        reveal_with_fuel(split_at_sep, 3);
        reveal_with_fuel(normalize, 3);
        assert(render_path(p@) == raw);
        assert(raw[0] == SLASH);
        assert(raw.drop_last() =~= e);
        assert(raw.drop_last().len() == 0);
        assert(split_at_sep(raw, SLASH) =~= seq![e, e]);
        let ts = seq![e, e];
        assert(ts.drop_last() =~= seq![e]);
        assert((seq![e]).drop_last() =~= Seq::<Seq<u8>>::empty());
        assert(normalize(ts) == norm_step(norm_step(normalize(Seq::<Seq<u8>>::empty()), e), e));
        assert(normalize(ts) =~= p@);
    } else {
        let raw = render_comps(p@);
        lemma_render_first(p@);
        lemma_split_render(p@, SLASH);
        lemma_normalize_empty_head(p@);
        assert(resolve_spec(raw, home, base) == normalize(seq![e] + p@));
    }
}

/// An absolute filesystem path, stored as its components from the root.
#[derive(Debug)]
pub struct AbsPath {
    pub comps: Vec<Vec<u8>>,
}

/// A fresh byte vector holding the same bytes.
pub fn clone_bytes(v: &Vec<u8>) -> (r: Vec<u8>)
    ensures
        r@ == v@,
{
    let mut r: Vec<u8> = Vec::new();
    let mut i: usize = 0;
    while i < v.len()
        invariant
            i <= v@.len(),
            r@ == v@.take(i as int),
        decreases v@.len() - i,
    {
        r.push(v[i]);
        proof {
            assert(v@.take(i + 1) =~= v@.take(i as int).push(v@[i as int]));
        }
        i = i + 1;
    }
    proof {
        assert(v@.take(v@.len() as int) =~= v@);
    }
    r
}

/// A fresh component list holding the same components.
pub fn clone_comps(v: &Vec<Vec<u8>>) -> (r: Vec<Vec<u8>>)
    ensures
        r.deep_view() == v.deep_view(),
{
    let mut r: Vec<Vec<u8>> = Vec::new();
    let mut i: usize = 0;
    while i < v.len()
        invariant
            i <= v@.len(),
            r.deep_view() == v.deep_view().take(i as int),
        decreases v@.len() - i,
    {
        let ghost prev = r.deep_view();
        r.push(clone_bytes(&v[i]));
        proof {
            assert(r.deep_view() =~~= prev.push(v@[i as int]@));
            assert(v.deep_view().take(i + 1) =~= v.deep_view().take(i as int).push(
                v.deep_view()[i as int],
            ));
        }
        i = i + 1;
    }
    proof {
        assert(v.deep_view().take(v@.len() as int) =~= v.deep_view());
    }
    r
}

/// Whether two byte vectors hold the same bytes.
pub fn bytes_eq(a: &Vec<u8>, b: &Vec<u8>) -> (r: bool)
    ensures
        r == (a@ == b@),
{
    if a.len() != b.len() {
        return false;
    }
    let mut i: usize = 0;
    while i < a.len()
        invariant
            i <= a@.len(),
            a@.len() == b@.len(),
            forall|j: int| 0 <= j < i ==> a@[j] == b@[j],
        decreases a@.len() - i,
    {
        if a[i] != b[i] {
            return false;
        }
        i = i + 1;
    }
    proof {
        assert(a@ =~= b@);
    }
    true
}

/// Applies [`norm_step`] to every token in order.
pub fn normalize_vec(tokens: &Vec<Vec<u8>>) -> (r: Vec<Vec<u8>>)
    ensures
        r.deep_view() == normalize(tokens.deep_view()),
{
    let mut stack: Vec<Vec<u8>> = Vec::new();
    let mut i: usize = 0;
    while i < tokens.len()
        invariant
            i <= tokens@.len(),
            stack.deep_view() == normalize(tokens.deep_view().take(i as int)),
        decreases tokens@.len() - i,
    {
        let ghost prev = stack.deep_view();
        let t = &tokens[i];
        if t.len() == 0 || (t.len() == 1 && t[0] == DOT) {
            proof {
                assert(t@.len() == 0 || t@ =~= seq![DOT]);
            }
        } else if t.len() == 2 && t[0] == DOT && t[1] == DOT {
            proof {
                assert(t@ =~= seq![DOT, DOT]);
            }
            if stack.len() > 0 {
                let ghost prev_vec = stack@;
                let popped = stack.pop();
                proof {
                    assert(stack.deep_view() =~~= prev.drop_last());
                }
            }
        } else {
            proof {
                if t@ == seq![DOT] {
                    assert(t@.len() == 1 && t@[0] == DOT);
                    assert(false);
                }
                if t@ == seq![DOT, DOT] {
                    assert(t@.len() == 2 && t@[0] == DOT && t@[1] == DOT);
                    assert(false);
                }
            }
            stack.push(clone_bytes(t));
            proof {
                assert(stack.deep_view() =~~= prev.push(t@));
            }
        }
        proof {
            let full = tokens.deep_view();
            assert(full.take(i + 1).drop_last() =~= full.take(i as int));
            assert(full.take(i + 1).last() == t@);
        }
        i = i + 1;
    }
    proof {
        assert(tokens.deep_view().take(tokens@.len() as int) =~= tokens.deep_view());
    }
    stack
}

impl AbsPath {
    /// The mathematical value of the path: its components as byte sequences.
    pub open spec fn view(&self) -> Seq<Seq<u8>> {
        self.comps.deep_view()
    }

    /// Every component is a valid name.
    pub open spec fn wf(&self) -> bool {
        forall|i: int| 0 <= i < self@.len() ==> valid_comp(#[trigger] self@[i])
    }

    /// The root path `/`.
    pub fn root() -> (r: AbsPath)
        ensures
            r@ =~= Seq::<Seq<u8>>::empty(),
            r.wf(),
    {
        AbsPath { comps: Vec::new() }
    }

    /// The same path again, owning fresh buffers.
    pub fn duplicate(&self) -> (r: AbsPath)
        ensures
            r@ == self@,
    {
        AbsPath { comps: clone_comps(&self.comps) }
    }

    /// The number of components.
    pub fn depth(&self) -> (r: usize)
        ensures
            r == self@.len(),
    {
        self.comps.len()
    }

    /// Resolves a raw byte path against a home directory (for `~`) and a
    /// base directory (for relative paths).  The result is always absolute.
    pub fn resolve(raw: &Vec<u8>, home: &AbsPath, base: &AbsPath) -> (r: AbsPath)
        requires
            home.wf(),
            base.wf(),
        ensures
            r@ == resolve_spec(raw@, home@, base@),
            r.wf(),
    {
        let tokens: Vec<Vec<u8>>;
        let ghost spec_tokens: Seq<Seq<u8>>;
        if raw.len() > 0 && raw[0] == SLASH {
            tokens = split_from(raw, 0, SLASH);
            proof {
                assert(raw@.skip(0) =~= raw@);
                spec_tokens = split_at_sep(raw@, SLASH);
                lemma_split_no_sep(raw@, SLASH);
            }
        } else if raw.len() >= 1 && raw[0] == TILDE && (raw.len() == 1 || raw[1] == SLASH) {
            let mut start = clone_comps(&home.comps);
            let mut rest = split_from(raw, 1, SLASH);
            let ghost start_view = start.deep_view();
            let ghost rest_view = rest.deep_view();
            start.append(&mut rest);
            proof {
                assert(start.deep_view() =~~= start_view + rest_view);
                spec_tokens = home@ + split_at_sep(raw@.skip(1), SLASH);
                lemma_split_no_sep(raw@.skip(1), SLASH);
            }
            tokens = start;
        } else {
            let mut start = clone_comps(&base.comps);
            let mut rest = split_from(raw, 0, SLASH);
            let ghost start_view = start.deep_view();
            let ghost rest_view = rest.deep_view();
            start.append(&mut rest);
            proof {
                assert(raw@.skip(0) =~= raw@);
                assert(start.deep_view() =~~= start_view + rest_view);
                spec_tokens = base@ + split_at_sep(raw@, SLASH);
                lemma_split_no_sep(raw@, SLASH);
            }
            tokens = start;
        }
        proof {
            assert forall|i: int| 0 <= i < tokens.deep_view().len() implies no_byte(
                #[trigger] tokens.deep_view()[i],
                SLASH,
            ) by {
                assert(tokens.deep_view() == spec_tokens);
            }
            lemma_normalize_wf(tokens.deep_view());
        }
        let comps = normalize_vec(&tokens);
        AbsPath { comps }
    }

    /// Renders the path as bytes: `/` before each component, `/` alone for
    /// the root.
    pub fn to_bytes(&self) -> (r: Vec<u8>)
        ensures
            r@ == render_path(self@),
    {
        let n = self.comps.len();
        if n == 0 {
            let mut v: Vec<u8> = Vec::new();
            v.push(SLASH);
            proof {
                assert(v@ =~= seq![SLASH]);
            }
            return v;
        }
        let mut out: Vec<u8> = Vec::new();
        let mut i: usize = 0;
        while i < n
            invariant
                i <= n,
                n == self@.len(),
                out@ == render_comps(self@.take(i as int)),
            decreases n - i,
        {
            let ghost prev = out@;
            out.push(SLASH);
            let comp = &self.comps[i];
            let mut j: usize = 0;
            while j < comp.len()
                invariant
                    j <= comp@.len(),
                    out@ == prev + seq![SLASH] + comp@.take(j as int),
                decreases comp@.len() - j,
            {
                out.push(comp[j]);
                proof {
                    assert(prev + seq![SLASH] + comp@.take(j + 1) =~= (prev + seq![SLASH]
                        + comp@.take(j as int)).push(comp@[j as int]));
                }
                j = j + 1;
            }
            proof {
                assert(comp@.take(comp@.len() as int) =~= comp@);
                assert(self@.take(i + 1).drop_last() =~= self@.take(i as int));
                assert(self@.take(i + 1).last() == self@[i as int]);
                assert(comp@ == self@[i as int]);
            }
            i = i + 1;
        }
        proof {
            assert(self@.take(self@.len() as int) =~= self@);
        }
        out
    }

    /// The path one level below this one, named `name`.
    pub fn child(&self, name: &Vec<u8>) -> (r: AbsPath)
        ensures
            r@ == self@.push(name@),
            self.wf() && valid_comp(name@) ==> r.wf(),
    {
        let mut comps = clone_comps(&self.comps);
        let ghost prev = comps.deep_view();
        comps.push(clone_bytes(name));
        proof {
            assert(comps.deep_view() =~~= prev.push(name@));
        }
        let r = AbsPath { comps };
        proof {
            if self.wf() && valid_comp(name@) {
                assert forall|i: int| 0 <= i < r@.len() implies valid_comp(#[trigger] r@[i]) by {
                    if i < self@.len() {
                        assert(r@[i] == self@[i]);
                    } else {
                        assert(r@[i] == name@);
                    }
                }
            }
        }
        r
    }

    /// Appends every component of `rel` to this path.
    pub fn join_rel(&self, rel: &Vec<Vec<u8>>) -> (r: AbsPath)
        ensures
            r@ == self@ + rel.deep_view(),
            self.wf() && (forall|i: int|
                0 <= i < rel.deep_view().len() ==> valid_comp(#[trigger] rel.deep_view()[i]))
                ==> r.wf(),
    {
        let mut comps = clone_comps(&self.comps);
        let mut extra = clone_comps(rel);
        let ghost a = comps.deep_view();
        let ghost b = extra.deep_view();
        comps.append(&mut extra);
        proof {
            assert(comps.deep_view() =~~= a + b);
        }
        AbsPath { comps }
    }

    /// Whether two paths are the same.
    pub fn path_eq(&self, other: &AbsPath) -> (r: bool)
        ensures
            r == (self@ == other@),
    {
        if self.comps.len() != other.comps.len() {
            return false;
        }
        let mut i: usize = 0;
        while i < self.comps.len()
            invariant
                i <= self@.len(),
                self@.len() == other@.len(),
                forall|j: int| 0 <= j < i ==> self@[j] == other@[j],
            decreases self@.len() - i,
        {
            if !bytes_eq(&self.comps[i], &other.comps[i]) {
                proof {
                    assert(self@[i as int] == self.comps@[i as int]@);
                    assert(other@[i as int] == other.comps@[i as int]@);
                }
                return false;
            }
            i = i + 1;
        }
        proof {
            assert(self@ =~= other@);
        }
        true
    }

    /// If `base` is a prefix of this path, the components below it.
    pub fn strip_prefix(&self, base: &AbsPath) -> (r: Option<Vec<Vec<u8>>>)
        ensures
            match r {
                Some(rel) => base@.is_prefix_of(self@) && rel.deep_view() == self@.skip(
                    base@.len() as int,
                ),
                None => !base@.is_prefix_of(self@),
            },
    {
        if base.comps.len() > self.comps.len() {
            proof {
                assert(!base@.is_prefix_of(self@));
            }
            return None;
        }
        let mut i: usize = 0;
        while i < base.comps.len()
            invariant
                i <= base@.len(),
                base@.len() <= self@.len(),
                forall|j: int| 0 <= j < i ==> base@[j] == self@[j],
            decreases base@.len() - i,
        {
            if !bytes_eq(&self.comps[i], &base.comps[i]) {
                proof {
                    assert(self@[i as int] == self.comps@[i as int]@);
                    assert(base@[i as int] == base.comps@[i as int]@);
                    if base@.is_prefix_of(self@) {
                        assert(base@[i as int] == self@.subrange(0, base@.len() as int)[i as int]);
                    }
                }
                return None;
            }
            i = i + 1;
        }
        let mut rel: Vec<Vec<u8>> = Vec::new();
        let mut j: usize = base.comps.len();
        while j < self.comps.len()
            invariant
                base@.len() <= j <= self@.len(),
                rel.deep_view() == self@.subrange(base@.len() as int, j as int),
            decreases self@.len() - j,
        {
            let ghost prev = rel.deep_view();
            rel.push(clone_bytes(&self.comps[j]));
            proof {
                assert(rel.deep_view() =~~= prev.push(self@[j as int]));
                assert(self@.subrange(base@.len() as int, j + 1) =~= self@.subrange(
                    base@.len() as int,
                    j as int,
                ).push(self@[j as int]));
            }
            j = j + 1;
        }
        proof {
            assert(base@ =~= self@.subrange(0, base@.len() as int));
            assert(self@.subrange(base@.len() as int, self@.len() as int) =~= self@.skip(
                base@.len() as int,
            ));
        }
        Some(rel)
    }

    /// Every proper ancestor of this path, root first: the result holds one
    /// path for each prefix of the component list, shortest first.
    pub fn ancestors(&self) -> (r: Vec<AbsPath>)
        ensures
            r@.len() == self@.len(),
            forall|i: int| 0 <= i < r@.len() ==> (#[trigger] r@[i])@ == self@.take(i),
    {
        let mut r: Vec<AbsPath> = Vec::new();
        let mut cur: Vec<Vec<u8>> = Vec::new();
        let mut i: usize = 0;
        while i < self.comps.len()
            invariant
                i <= self@.len(),
                cur.deep_view() == self@.take(i as int),
                r@.len() == i,
                forall|k: int| 0 <= k < i ==> (#[trigger] r@[k])@ == self@.take(k),
            decreases self@.len() - i,
        {
            r.push(AbsPath { comps: clone_comps(&cur) });
            let ghost prev = cur.deep_view();
            cur.push(clone_bytes(&self.comps[i]));
            proof {
                assert(cur.deep_view() =~~= prev.push(self@[i as int]));
                assert(self@.take(i + 1) =~= self@.take(i as int).push(self@[i as int]));
            }
            i = i + 1;
        }
        r
    }

    /// Joins a relative byte path (components separated by `/`) below this
    /// path, normalizing `.` and `..` on the way.
    pub fn join_bytes(&self, raw: &Vec<u8>) -> (r: AbsPath)
        requires
            self.wf(),
        ensures
            r@ == normalize(self@ + split_at_sep(raw@, SLASH)),
            r.wf(),
    {
        let mut start = clone_comps(&self.comps);
        let mut rest = split_from(raw, 0, SLASH);
        let ghost start_view = start.deep_view();
        let ghost rest_view = rest.deep_view();
        start.append(&mut rest);
        proof {
            assert(raw@.skip(0) =~= raw@);
            assert(start.deep_view() =~~= start_view + rest_view);
            lemma_split_no_sep(raw@, SLASH);
            assert forall|i: int| 0 <= i < start.deep_view().len() implies no_byte(
                #[trigger] start.deep_view()[i],
                SLASH,
            ) by {
                assert(start.deep_view() == self@ + split_at_sep(raw@, SLASH));
            }
            lemma_normalize_wf(start.deep_view());
        }
        let comps = normalize_vec(&start);
        AbsPath { comps }
    }

    /// The last component, if the path is not the root.
    pub fn file_name(&self) -> (r: Option<&Vec<u8>>)
        ensures
            match r {
                Some(n) => self@.len() > 0 && n@ == self@.last(),
                None => self@.len() == 0,
            },
    {
        if self.comps.len() == 0 {
            None
        } else {
            Some(&self.comps[self.comps.len() - 1])
        }
    }

    /// Appends one component in place.
    pub fn push_comp(&mut self, name: &Vec<u8>)
        ensures
            final(self)@ == old(self)@.push(name@),
            old(self).wf() && valid_comp(name@) ==> final(self).wf(),
    {
        let ghost prev = self.comps.deep_view();
        self.comps.push(clone_bytes(name));
        proof {
            assert(self.comps.deep_view() =~~= prev.push(name@));
            if old(self).wf() && valid_comp(name@) {
                assert forall|i: int| 0 <= i < self@.len() implies valid_comp(
                    #[trigger] self@[i],
                ) by {
                    if i < prev.len() {
                        assert(self@[i] == old(self)@[i]);
                    } else {
                        assert(self@[i] == name@);
                    }
                }
            }
        }
    }
}

} // verus!
