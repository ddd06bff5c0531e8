//! The on-disk layout of the PKI, as `/`-separated path text.
//!
//! Paths are text joined the way `std::path::Path::join` joins on Unix: a part that starts
//! with `/` replaces the base, otherwise one `/` separates base and part unless the base
//! is empty or already ends with `/`.
use vstd::prelude::*;
use crate::model::{Failure, Profile, profile_name, all_profiles};
use crate::text::{chars_of, joined, owned, push_char, starts_with, string_of, text_eq, text_starts_with, join, opt_text};
use crate::rules::{valid_name, validate_name};

verus! {

/// `part` joined onto `base`.
pub open spec fn path_join(base: Seq<char>, part: Seq<char>) -> Seq<char> {
    if part.len() > 0 && part[0] == '/' {
        part
    } else if base.len() == 0 || base.last() == '/' {
        base + part
    } else {
        base + "/"@ + part
    }
}

/// Joins `part` onto `base`.
pub fn join_path(base: &str, part: &str) -> (r: String)
    ensures
        r@ == path_join(base@, part@),
{
    let p = chars_of(part);
    if p.len() > 0 && p[0] == '/' {
        return owned(part);
    }
    let b = chars_of(base);
    let mut r = owned(base);
    if b.len() != 0 && b[b.len() - 1] != '/' {
        push_char(&mut r, '/');
    }
    r.append(part);
    proof {
        reveal_strlit("/");
        assert(base@ + "/"@ + part@ =~= base@.push('/') + part@);
    }
    r
}

/// Whether a path starts at the root directory.
pub open spec fn has_root(p: Seq<char>) -> bool {
    p.len() > 0 && p[0] == '/'
}

/// Whether a relative path starts with a `.` component.
pub open spec fn leading_cur(p: Seq<char>) -> bool {
    p.len() > 0 && p[0] == '.' && (p.len() == 1 || p[1] == '/')
}

/// The path without its leading separators and `.` components.
pub open spec fn skip_noise(p: Seq<char>) -> Seq<char>
    decreases p.len(),
{
    if p.len() > 0 && p[0] == '/' {
        skip_noise(p.drop_first())
    } else if leading_cur(p) {
        skip_noise(p.drop_first())
    } else {
        p
    }
}

/// The first component of a path that does not start with a separator: its text up to the
/// first `/`.
pub open spec fn first_component(p: Seq<char>) -> Seq<char>
    decreases p.len(),
{
    if p.len() == 0 || p[0] == '/' {
        Seq::empty()
    } else {
        seq![p[0]] + first_component(p.drop_first())
    }
}

pub proof fn lemma_skip_noise_len(p: Seq<char>)
    ensures
        skip_noise(p).len() <= p.len(),
        skip_noise(p) == p.subrange(p.len() - skip_noise(p).len(), p.len() as int),
    decreases p.len(),
{
    if p.len() > 0 && (p[0] == '/' || leading_cur(p)) {
        lemma_skip_noise_len(p.drop_first());
    } else {
        assert(p.subrange(0, p.len() as int) =~= p);
    }
}

pub proof fn lemma_first_component_len(p: Seq<char>)
    ensures
        first_component(p).len() <= p.len(),
        first_component(p) == p.take(first_component(p).len() as int),
    decreases p.len(),
{
    if p.len() > 0 && p[0] != '/' {
        lemma_first_component_len(p.drop_first());
        assert(seq![p[0]] + first_component(p.drop_first()) =~= p.take(first_component(p).len() as int));
    } else {
        assert(p.take(0) =~= Seq::<char>::empty());
    }
}

/// What is left of `path` once the components of `root` are matched one by one at its
/// start, separators and `.` components aside, as `std::path::Path::strip_prefix` matches
/// them; none when a component differs or `path` runs out first.
pub open spec fn strip_components(path: Seq<char>, root: Seq<char>) -> Option<Seq<char>>
    decreases root.len(),
{
    let p = skip_noise(path);
    let r = skip_noise(root);
    if r.len() == 0 {
        Some(p)
    } else {
        let c = first_component(r);
        if c.len() > 0 && first_component(p) == c {
            proof {
                lemma_skip_noise_len(root);
                lemma_first_component_len(r);
            }
            strip_components(p.skip(c.len() as int), r.skip(c.len() as int))
        } else {
            None
        }
    }
}

/// The path without its trailing separators and `.` components.
pub open spec fn trim_tail(p: Seq<char>) -> Seq<char>
    decreases p.len(),
{
    if p.len() > 0 && p.last() == '/' {
        trim_tail(p.drop_last())
    } else if p.len() > 0 && p.last() == '.' && (p.len() == 1 || p[p.len() - 2] == '/') {
        trim_tail(p.drop_last())
    } else {
        p
    }
}

/// How much of a path comes before its first named component: the root directory or a
/// leading `.` component.
pub open spec fn start_len(p: Seq<char>) -> int {
    if has_root(p) || leading_cur(p) {
        1
    } else {
        0
    }
}

/// The text of `path` relative to `root`, as `Path::strip_prefix` and its display give it:
/// for an empty `root`, `path` without its trailing separators and `.` components (its root
/// directory or leading `.` kept); when both start alike (at the root directory, with a `.`
/// component, or with a name) and every component of `root` begins `path`, what follows
/// them without leading or trailing separators and `.` components; otherwise `path`
/// itself.
pub open spec fn path_below(root: Seq<char>, path: Seq<char>) -> Seq<char> {
    if root.len() == 0 {
        path.subrange(0, start_len(path)) + trim_tail(path.subrange(start_len(path), path.len() as int))
    } else if has_root(root) != has_root(path) || leading_cur(root) != leading_cur(path) {
        path
    } else {
        match strip_components(path, root) {
            Some(rest) => trim_tail(rest),
            None => path,
        }
    }
}

/// A path in which every separator is followed by a component and no component is `.`:
/// no `//`, no trailing `/`, no `./` or `/.` component.
pub open spec fn clean_path(p: Seq<char>) -> bool {
    &&& forall|i: int| 0 <= i < p.len() && #[trigger] p[i] == '/' ==> i + 1 < p.len() && p[i + 1] != '/'
    &&& forall|i: int|
        0 <= i < p.len() && #[trigger] p[i] == '.' && (i == 0 || p[i - 1] == '/') ==> i + 1 < p.len()
            && p[i + 1] != '/'
}

proof fn lemma_skip_noise_append(r: Seq<char>, s: Seq<char>)
    requires
        skip_noise(r).len() > 0,
    ensures
        skip_noise(r + s) == skip_noise(r) + s,
    decreases r.len(),
{
    let rs = r + s;
    assert(r.len() > 0) by {
        if r.len() == 0 {
            assert(skip_noise(r) == r);
        }
    }
    assert(rs[0] == r[0]);
    if r[0] == '/' {
        assert(rs.drop_first() =~= r.drop_first() + s);
        lemma_skip_noise_append(r.drop_first(), s);
    } else if leading_cur(r) {
        if r.len() == 1 {
            assert(r.drop_first() =~= Seq::<char>::empty());
            assert(skip_noise(r.drop_first()) =~= Seq::<char>::empty());
        }
        assert(rs[1] == r[1]);
        assert(rs.drop_first() =~= r.drop_first() + s);
        lemma_skip_noise_append(r.drop_first(), s);
    } else {
        if r.len() > 1 {
            assert(rs[1] == r[1]);
        }
        assert(!leading_cur(rs));
    }
}

proof fn lemma_first_component_append(a: Seq<char>, b: Seq<char>)
    requires
        first_component(a).len() < a.len() || (b.len() > 0 && b[0] == '/'),
    ensures
        first_component(a + b) == first_component(a),
        first_component(a).len() < a.len() ==> a[first_component(a).len() as int] == '/',
    decreases a.len(),
{
    let ab = a + b;
    if a.len() == 0 {
        assert(ab =~= b);
    } else {
        assert(ab[0] == a[0]);
        if a[0] != '/' {
            assert(ab.drop_first() =~= a.drop_first() + b);
            lemma_first_component_append(a.drop_first(), b);
        }
    }
}

proof fn lemma_clean_skip_noise(r: Seq<char>)
    requires
        clean_path(r),
        r.len() > 0,
    ensures
        skip_noise(r).len() > 0,
        clean_path(skip_noise(r)),
        skip_noise(r)[0] != '/',
        !leading_cur(skip_noise(r)),
    decreases r.len(),
{
    if r[0] == '/' {
        let t = r.drop_first();
        assert(t.len() > 0 && t[0] == r[1]);
        assert forall|i: int| 0 <= i < t.len() && #[trigger] t[i] == '/' implies i + 1 < t.len() && t[i + 1] != '/' by {
            assert(r[i + 1] == t[i]);
        }
        assert forall|i: int| 0 <= i < t.len() && #[trigger] t[i] == '.' && (i == 0 || t[i - 1] == '/') implies i + 1 < t.len()
            && t[i + 1] != '/' by {
            assert(r[i + 1] == t[i]);
            assert(r[i] == '/' || i > 0);
        }
        lemma_clean_skip_noise(t);
    } else {
        assert(!leading_cur(r));
    }
}

proof fn lemma_strip_clean(r: Seq<char>, q: Seq<char>)
    requires
        clean_path(r),
        clean_path(q),
        q.len() > 0,
        q[0] != '/',
        r.len() == 0 || r[0] == '/' || !leading_cur(r),
    ensures
        strip_components(r + "/"@ + q, r) == Some(q),
    decreases r.len(),
{
    reveal_strlit("/");
    let s = "/"@ + q;
    assert(s[0] == '/');
    assert(s.drop_first() =~= q);
    assert(!leading_cur(q));
    assert(skip_noise(q) == q);
    assert(skip_noise(s) == q);
    if r.len() == 0 {
        assert(r + s =~= s);
        assert(skip_noise(r) == r);
    } else {
        assert(r + "/"@ + q =~= r + s);
        lemma_clean_skip_noise(r);
        let rr = skip_noise(r);
        lemma_skip_noise_len(r);
        lemma_skip_noise_append(r, s);
        let c = first_component(rr);
        lemma_first_component_len(rr);
        assert(c.len() > 0) by {
            assert(rr[0] != '/');
        }
        lemma_first_component_append(rr, s);
        let k = c.len() as int;
        let r2 = rr.skip(k);
        assert((rr + s).skip(k) =~= r2 + s);
        assert(r2.len() > 0 ==> r2[0] == '/');
        assert forall|i: int| 0 <= i < r2.len() && #[trigger] r2[i] == '/' implies i + 1 < r2.len() && r2[i + 1] != '/' by {
            assert(rr[k + i] == r2[i]);
        }
        assert forall|i: int| 0 <= i < r2.len() && #[trigger] r2[i] == '.' && (i == 0 || r2[i - 1] == '/') implies i + 1
            < r2.len() && r2[i + 1] != '/' by {
            assert(rr[k + i] == r2[i]);
            assert(rr[k + i - 1] == r2[i - 1]);
        }
        lemma_strip_clean(r2, q);
        assert(r2 + "/"@ + q =~= r2 + s);
    }
}

/// A clean relative path joined onto a clean directory is shown relative to that directory
/// as itself.
pub proof fn lemma_below_join(dir: Seq<char>, q: Seq<char>)
    requires
        clean_path(dir),
        dir.len() > 0,
        clean_path(q),
        q.len() > 0,
        q[0] != '/',
    ensures
        path_join(dir, q) == dir + "/"@ + q,
        path_below(dir, path_join(dir, q)) == q,
{
    reveal_strlit("/");
    assert(dir.last() != '/');
    let p = dir + "/"@ + q;
    assert(p[0] == dir[0]);
    if dir.len() > 1 {
        assert(p[1] == dir[1]);
    } else {
        assert(p[1] == '/');
    }
    assert(!leading_cur(dir));
    lemma_strip_clean(dir, q);
    assert(q.last() != '/');
    assert(trim_tail(q) == q);
}

fn skip_noise_at(v: &Vec<char>, i: usize) -> (j: usize)
    requires
        i <= v@.len(),
    ensures
        i <= j <= v@.len(),
        v@.subrange(j as int, v@.len() as int) == skip_noise(v@.subrange(i as int, v@.len() as int)),
{
    let n = v.len();
    let mut j = i;
    while j < n && (v[j] == '/' || (v[j] == '.' && (j + 1 == n || v[j + 1] == '/')))
        invariant
            n == v@.len(),
            i <= j <= n,
            skip_noise(v@.subrange(j as int, n as int)) == skip_noise(v@.subrange(i as int, n as int)),
        decreases n - j,
    {
        let ghost s = v@.subrange(j as int, n as int);
        assert(s.drop_first() =~= v@.subrange(j + 1, n as int));
        assert(s[0] == v@[j as int]);
        if j + 1 < n {
            assert(s[1] == v@[j + 1]);
        }
        j = j + 1;
    }
    proof {
        let s = v@.subrange(j as int, n as int);
        if j < n {
            assert(s[0] == v@[j as int]);
            if j + 1 < n {
                assert(s[1] == v@[j + 1]);
            }
        }
    }
    j
}

fn component_end(v: &Vec<char>, i: usize) -> (e: usize)
    requires
        i <= v@.len(),
    ensures
        i <= e <= v@.len(),
        v@.subrange(i as int, e as int) == first_component(v@.subrange(i as int, v@.len() as int)),
{
    let n = v.len();
    let mut e = i;
    while e < n && v[e] != '/'
        invariant
            n == v@.len(),
            i <= e <= n,
            first_component(v@.subrange(i as int, n as int)) == v@.subrange(i as int, e as int)
                + first_component(v@.subrange(e as int, n as int)),
        decreases n - e,
    {
        let ghost s = v@.subrange(e as int, n as int);
        assert(s.drop_first() =~= v@.subrange(e + 1, n as int));
        assert(s[0] == v@[e as int]);
        assert(v@.subrange(i as int, e + 1) =~= v@.subrange(i as int, e as int) + seq![v@[e as int]]);
        e = e + 1;
    }
    proof {
        let s = v@.subrange(e as int, n as int);
        if e < n {
            assert(s[0] == v@[e as int]);
        }
        assert(first_component(s) =~= Seq::<char>::empty());
        assert(v@.subrange(i as int, e as int) + Seq::<char>::empty() =~= v@.subrange(i as int, e as int));
    }
    e
}

fn same_span(v: &Vec<char>, a: usize, w: &Vec<char>, b: usize, n: usize) -> (r: bool)
    requires
        a + n <= v@.len(),
        b + n <= w@.len(),
    ensures
        r == (v@.subrange(a as int, a + n) == w@.subrange(b as int, b + n)),
{
    let mut k: usize = 0;
    let vn = v.len();
    let wn = w.len();
    assert(v@.subrange(a as int, a as int) =~= w@.subrange(b as int, b as int));
    while k < n
        invariant
            vn == v@.len(),
            wn == w@.len(),
            a + n <= v@.len(),
            b + n <= w@.len(),
            k <= n,
            v@.subrange(a as int, a + k) == w@.subrange(b as int, b + k),
        decreases n - k,
    {
        assert(a + k < v@.len() && b + k < w@.len());
        if v[a + k] != w[b + k] {
            assert(v@.subrange(a as int, a + n)[k as int] != w@.subrange(b as int, b + n)[k as int]);
            return false;
        }
        assert(v@.subrange(a as int, a + k + 1) =~= v@.subrange(a as int, a + k).push(v@[a + k]));
        assert(w@.subrange(b as int, b + k + 1) =~= w@.subrange(b as int, b + k).push(w@[b + k]));
        k = k + 1;
    }
    true
}

fn strip_at(pv: &Vec<char>, rv: &Vec<char>) -> (r: Option<usize>)
    ensures
        match r {
            Some(j) => j <= pv@.len() && strip_components(pv@, rv@) == Some(
                pv@.subrange(j as int, pv@.len() as int),
            ),
            None => strip_components(pv@, rv@) is None,
        },
{
    let pn = pv.len();
    let rn = rv.len();
    let mut pi: usize = 0;
    let mut ri: usize = 0;
    assert(pv@.subrange(0, pn as int) =~= pv@);
    assert(rv@.subrange(0, rn as int) =~= rv@);
    loop
        invariant
            pn == pv@.len(),
            rn == rv@.len(),
            pi <= pn,
            ri <= rn,
            strip_components(pv@, rv@) == strip_components(
                pv@.subrange(pi as int, pn as int),
                rv@.subrange(ri as int, rn as int),
            ),
        decreases rn - ri,
    {
        let ghost ps = pv@.subrange(pi as int, pn as int);
        let ghost rs = rv@.subrange(ri as int, rn as int);
        let p1 = skip_noise_at(pv, pi);
        let r1 = skip_noise_at(rv, ri);
        if r1 == rn {
            assert(skip_noise(rs).len() == 0);
            return Some(p1);
        }
        let re = component_end(rv, r1);
        let pe = component_end(pv, p1);
        let ghost p = pv@.subrange(p1 as int, pn as int);
        let ghost r = rv@.subrange(r1 as int, rn as int);
        let ghost c = first_component(r);
        assert(c == rv@.subrange(r1 as int, re as int));
        if re == r1 || re - r1 != pe - p1 || !same_span(pv, p1, rv, r1, re - r1) {
            proof {
                if c.len() > 0 && first_component(p) == c {
                    assert(pv@.subrange(p1 as int, pe as int).len() == c.len());
                }
            }
            return None;
        }
        proof {
            assert(first_component(p) == c);
            assert(p.skip(c.len() as int) =~= pv@.subrange(pe as int, pn as int));
            assert(r.skip(c.len() as int) =~= rv@.subrange(re as int, rn as int));
        }
        pi = pe;
        ri = re;
    }
}

fn trim_tail_end(v: &Vec<char>, from: usize) -> (e: usize)
    requires
        from <= v@.len(),
    ensures
        from <= e <= v@.len(),
        v@.subrange(from as int, e as int) == trim_tail(v@.subrange(from as int, v@.len() as int)),
{
    let mut e = v.len();
    while e > from && (v[e - 1] == '/' || (v[e - 1] == '.' && (e - 1 == from || v[e - 2] == '/')))
        invariant
            from <= e <= v@.len(),
            trim_tail(v@.subrange(from as int, e as int)) == trim_tail(
                v@.subrange(from as int, v@.len() as int),
            ),
        decreases e - from,
    {
        let ghost s = v@.subrange(from as int, e as int);
        assert(s.drop_last() =~= v@.subrange(from as int, e - 1));
        assert(s.last() == v@[e - 1]);
        if e - 1 > from {
            assert(s[s.len() - 2] == v@[e - 2]);
        }
        e = e - 1;
    }
    proof {
        let s = v@.subrange(from as int, e as int);
        if e > from {
            assert(s.last() == v@[e - 1]);
            if e - 1 > from {
                assert(s[s.len() - 2] == v@[e - 2]);
            }
        }
    }
    e
}

/// The text of `path` relative to `root`, for display.
pub fn relative_path(root: &str, path: &str) -> (r: String)
    ensures
        r@ == path_below(root@, path@),
{
    let rv = chars_of(root);
    let pv = chars_of(path);
    let root_has = rv.len() > 0 && rv[0] == '/';
    let path_has = pv.len() > 0 && pv[0] == '/';
    let root_cur = rv.len() > 0 && rv[0] == '.' && (rv.len() == 1 || rv[1] == '/');
    let path_cur = pv.len() > 0 && pv[0] == '.' && (pv.len() == 1 || pv[1] == '/');
    if rv.len() == 0 {
        let start: usize = if path_has || path_cur {
            1
        } else {
            0
        };
        let e = trim_tail_end(&pv, start);
        proof {
            assert(pv@.subrange(0, e as int) =~= pv@.subrange(0, start as int) + pv@.subrange(
                start as int,
                e as int,
            ));
        }
        return string_of(pv.as_slice(), 0, e);
    }
    if root_has != path_has || root_cur != path_cur {
        return owned(path);
    }
    match strip_at(&pv, &rv) {
        None => owned(path),
        Some(j) => {
            let e = trim_tail_end(&pv, j);
            string_of(pv.as_slice(), j, e)
        },
    }
}

/// The parent of a path: what precedes its last `/` (`/` itself for a top-level absolute
/// path, empty text for a bare name), and nothing for empty text or `/`.
pub open spec fn path_parent(p: Seq<char>) -> Option<Seq<char>> {
    if p.len() == 0 || p == "/"@ {
        None
    } else if !p.contains('/') {
        Some(Seq::empty())
    } else {
        let i = choose|i: int| 0 <= i < p.len() && p[i] == '/' && forall|k: int| i < k < p.len() ==> p[k] != '/';
        if i == 0 {
            Some("/"@)
        } else {
            Some(p.subrange(0, i))
        }
    }
}

/// The parent of a path.
pub fn parent_path(path: &str) -> (r: Option<String>)
    ensures
        match r {
            Some(t) => path_parent(path@) == Some(t@),
            None => path_parent(path@) is None,
        },
{
    proof {
        reveal_strlit("/");
    }
    let v = chars_of(path);
    if v.len() == 0 || (v.len() == 1 && v[0] == '/') {
        proof {
            if v@.len() == 1 {
                assert(path@ =~= "/"@);
            }
        }
        return None;
    }
    proof {
        if path@ == "/"@ {
            assert(v@.len() == 1);
        }
    }
    let mut i: usize = v.len();
    while i > 0 && v[i - 1] != '/'
        invariant
            v@ == path@,
            i <= v@.len(),
            forall|k: int| i <= k < v@.len() ==> v@[k] != '/',
        decreases i,
    {
        i = i - 1;
    }
    if i == 0 {
        assert(!path@.contains('/'));
        return Some(String::new());
    }
    let slash = i - 1;
    proof {
        assert(path@.contains('/')) by {
            assert(path@[slash as int] == '/');
        }
        let c = choose|c: int| 0 <= c < path@.len() && path@[c] == '/' && forall|k: int| c < k < path@.len() ==> path@[k] != '/';
        assert(c == slash) by {
            if c < slash {
                assert(path@[slash as int] != '/');
            }
            if c > slash {
                assert(path@[c] != '/');
            }
        }
    }
    if slash == 0 {
        return Some(owned("/"));
    }
    Some(string_of(v.as_slice(), 0, slash))
}

/// The default passphrase file of a parent CA whose certificate is
/// `<ca>/certs/ca.cert.pem`: `<ca>/private/ca.passphrase`.
pub open spec fn default_passphrase_path(certificate: Seq<char>) -> Seq<char> {
    match path_parent(certificate) {
        Some(certs) => match path_parent(certs) {
            Some(ca) => path_join(ca, "private/ca.passphrase"@),
            None => "private/ca.passphrase"@,
        },
        None => "private/ca.passphrase"@,
    }
}

/// The default passphrase file belonging to a parent certificate.
pub fn parent_default_passphrase(certificate: &str) -> (r: String)
    ensures
        r@ == default_passphrase_path(certificate@),
{
    match parent_path(certificate) {
        Some(certs) => match parent_path(certs.as_str()) {
            Some(ca) => join_path(ca.as_str(), "private/ca.passphrase"),
            None => owned("private/ca.passphrase"),
        },
        None => owned("private/ca.passphrase"),
    }
}

/// The CA directory of a CA certificate `<ca>/certs/ca.cert.pem`: the certificate's second
/// ancestor, where it has one.
pub open spec fn ca_home(certificate: Seq<char>) -> Option<Seq<char>> {
    match path_parent(certificate) {
        Some(certs) => path_parent(certs),
        None => None,
    }
}

/// The CA directory of a CA certificate.
pub fn ca_home_of(certificate: &str) -> (r: Option<String>)
    ensures
        opt_text(r) == ca_home(certificate@),
{
    match parent_path(certificate) {
        Some(certs) => parent_path(certs.as_str()),
        None => None,
    }
}

/// Where an intermediate CA's extension file is written: `<dir>/.pki-intermediate-ext/<name>`.
pub open spec fn extension_path(dir: Seq<char>, name: Seq<char>) -> Seq<char> {
    path_join(path_join(dir, ".pki-intermediate-ext"@), name)
}

/// The extension file path of an intermediate CA.
pub fn intermediate_extension_path(dir: &str, name: &str) -> (r: String)
    ensures
        r@ == extension_path(dir@, name@),
{
    let base = join_path(dir, ".pki-intermediate-ext");
    join_path(base.as_str(), name)
}

/// The directory of a CA of a kind (`root` or `intermediate`): `<dir>/<profile>/<kind>/<name>/ca`.
pub open spec fn ca_dir(dir: Seq<char>, profile: Profile, kind: Seq<char>, name: Seq<char>) -> Seq<
    char,
> {
    path_join(path_join(path_join(path_join(dir, profile_name(profile)), kind), name), "ca"@)
}

/// The directory of a CA.
pub fn ca_directory(dir: &str, profile: Profile, kind: &str, name: &str) -> (r: String)
    ensures
        r@ == ca_dir(dir@, profile, kind@, name@),
{
    let a = join_path(dir, profile.text());
    let b = join_path(a.as_str(), kind);
    let c = join_path(b.as_str(), name);
    join_path(c.as_str(), "ca")
}

/// The directory of a leaf certificate: `<dir>/<profile>/certs/<name>`.
pub open spec fn leaf_dir(dir: Seq<char>, profile: Profile, name: Seq<char>) -> Seq<char> {
    path_join(path_join(path_join(dir, profile_name(profile)), "certs"@), name)
}

/// The directory of a leaf certificate.
pub fn leaf_directory(dir: &str, profile: Profile, name: &str) -> (r: String)
    ensures
        r@ == leaf_dir(dir@, profile, name@),
{
    let a = join_path(dir, profile.text());
    let b = join_path(a.as_str(), "certs");
    join_path(b.as_str(), name)
}

/// The CA directories that would clash with a new CA name: the root and the intermediate
/// directory of that name under every profile, in profile order.
pub open spec fn name_clash_paths(dir: Seq<char>, name: Seq<char>) -> Seq<Seq<char>> {
    seq![
        ca_dir(dir, Profile::EcdsaP256, "root"@, name),
        ca_dir(dir, Profile::EcdsaP256, "intermediate"@, name),
        ca_dir(dir, Profile::Ed25519, "root"@, name),
        ca_dir(dir, Profile::Ed25519, "intermediate"@, name),
        ca_dir(dir, Profile::Rsa4096, "root"@, name),
        ca_dir(dir, Profile::Rsa4096, "intermediate"@, name),
    ]
}

/// The CA directories whose existence decides whether a CA name is free.
pub fn ca_name_paths(dir: &str, name: &str) -> (r: Vec<String>)
    ensures
        r.deep_view() == name_clash_paths(dir@, name@),
{
    let r = vec![
        ca_directory(dir, Profile::EcdsaP256, "root", name),
        ca_directory(dir, Profile::EcdsaP256, "intermediate", name),
        ca_directory(dir, Profile::Ed25519, "root", name),
        ca_directory(dir, Profile::Ed25519, "intermediate", name),
        ca_directory(dir, Profile::Rsa4096, "root", name),
        ca_directory(dir, Profile::Rsa4096, "intermediate", name),
    ];
    assert(r.deep_view() =~= name_clash_paths(dir@, name@));
    r
}

/// Some flag is set.
pub open spec fn any_true(flags: Seq<bool>) -> bool {
    exists|i: int| 0 <= i < flags.len() && flags[i]
}

/// Refuses a CA name that is already used by any root or intermediate CA of any profile;
/// `existing[i]` tells whether the `i`-th path of `ca_name_paths` exists.
pub fn ensure_unique_ca_name(name: &str, existing: &[bool]) -> (r: Result<(), Failure>)
    ensures
        match r {
            Ok(()) => !any_true(existing@),
            Err(e) => any_true(existing@) && e.0 == 5 && e.1@
                == "CA name is already in use: "@ + name@,
        },
{
    let mut i: usize = 0;
    while i < existing.len()
        invariant
            i <= existing@.len(),
            forall|k: int| 0 <= k < i ==> !existing@[k],
        decreases existing.len() - i,
    {
        if existing[i] {
            assert(existing@[i as int]);
            let mut message = owned("CA name is already in use: ");
            message.append(name);
            return Err((5, message));
        }
        i = i + 1;
    }
    Ok(())
}


/// The name after a selector prefix such as `root:`.
pub open spec fn after(selector: Seq<char>, prefix: Seq<char>) -> Seq<char> {
    selector.subrange(prefix.len() as int, selector.len() as int)
}

/// The certificate that an issuer selector names under one profile: `root` names the
/// unnamed root, `root:<name>` a named root and `intermediate:<name>` an intermediate, each
/// at `ca/certs/ca.cert.pem` below its CA directory; a selector of another form, or with a
/// name that is not a safe name, names nothing.
pub open spec fn selector_path(dir: Seq<char>, selector: Seq<char>, p: Profile) -> Option<Seq<char>> {
    if selector == "root"@ {
        Some(path_join(path_join(dir, profile_name(p)), "root/ca/certs/ca.cert.pem"@))
    } else if starts_with(selector, "root:"@) {
        if valid_name(after(selector, "root:"@)) {
            Some(
                path_join(
                    path_join(path_join(path_join(dir, profile_name(p)), "root"@), after(selector, "root:"@)),
                    "ca/certs/ca.cert.pem"@,
                ),
            )
        } else {
            None
        }
    } else if starts_with(selector, "intermediate:"@) {
        if valid_name(after(selector, "intermediate:"@)) {
            Some(
                path_join(
                    path_join(
                        path_join(path_join(dir, profile_name(p)), "intermediate"@),
                        after(selector, "intermediate:"@),
                    ),
                    "ca/certs/ca.cert.pem"@,
                ),
            )
        } else {
            None
        }
    } else {
        None
    }
}

/// The certificate an issuer selector names under one profile.
pub fn issuer_candidate(dir: &str, selector: &str, profile: Profile) -> (r: Option<String>)
    ensures
        match r {
            Some(t) => selector_path(dir@, selector@, profile) == Some(t@),
            None => selector_path(dir@, selector@, profile) is None,
        },
{
    let base = join_path(dir, profile.text());
    if text_eq(selector, "root") {
        return Some(join_path(base.as_str(), "root/ca/certs/ca.cert.pem"));
    }
    let v = chars_of(selector);
    if text_starts_with(selector, "root:") {
        proof {
            reveal_strlit("root:");
        }
        let name = string_of(v.as_slice(), 5, v.len());
        assert(name@ =~= after(selector@, "root:"@));
        if validate_name(name.as_str()).is_err() {
            return None;
        }
        let a = join_path(base.as_str(), "root");
        let b = join_path(a.as_str(), name.as_str());
        return Some(join_path(b.as_str(), "ca/certs/ca.cert.pem"));
    }
    if text_starts_with(selector, "intermediate:") {
        proof {
            reveal_strlit("intermediate:");
        }
        let name = string_of(v.as_slice(), 13, v.len());
        assert(name@ =~= after(selector@, "intermediate:"@));
        if validate_name(name.as_str()).is_err() {
            return None;
        }
        let a = join_path(base.as_str(), "intermediate");
        let b = join_path(a.as_str(), name.as_str());
        return Some(join_path(b.as_str(), "ca/certs/ca.cert.pem"));
    }
    None
}

/// The certificates an issuer selector names, one entry per profile in search order.
pub fn issuer_candidates(dir: &str, selector: &str) -> (r: Vec<Option<String>>)
    ensures
        r@.len() == 3,
        forall|i: int| 0 <= i < 3 ==> match #[trigger] r@[i] {
            Some(t) => selector_path(dir@, selector@, all_profiles()[i]) == Some(t@),
            None => selector_path(dir@, selector@, all_profiles()[i]) is None,
        },
{
    let r = vec![
        issuer_candidate(dir, selector, Profile::EcdsaP256),
        issuer_candidate(dir, selector, Profile::Ed25519),
        issuer_candidate(dir, selector, Profile::Rsa4096),
    ];
    r
}

/// An issuer certificate that a selector resolved to, and its profile.
#[derive(Debug)]
pub struct ResolvedIssuer {
    pub path: String,
    pub profile: Profile,
}

/// The certificates a selector names that exist (`present[i]` for the `i`-th profile),
/// among the first `k` profiles.
pub open spec fn issuers_found(dir: Seq<char>, selector: Seq<char>, present: Seq<bool>, k: int) -> Seq<
    (Seq<char>, Profile),
>
    decreases k,
{
    if k <= 0 {
        Seq::empty()
    } else {
        let prev = issuers_found(dir, selector, present, k - 1);
        let p = all_profiles()[k - 1];
        match selector_path(dir, selector, p) {
            Some(path) => if present[k - 1] {
                prev.push((path, p))
            } else {
                prev
            },
            None => prev,
        }
    }
}

/// The selector has one of the forms `root`, `root:<name>` or `intermediate:<name>`.
pub open spec fn selector_form(selector: Seq<char>) -> bool {
    selector == "root"@ || starts_with(selector, "root:"@) || starts_with(selector, "intermediate:"@)
}

/// What an issuer selector resolves to, given which candidates exist: the one certificate
/// found and its profile; an ambiguity error listing them when several are found; and when
/// none is, an error for a selector of another form, or for a certificate that does not exist.
pub open spec fn resolution(dir: Seq<char>, selector: Seq<char>, present: Seq<bool>) -> Result<
    (Seq<char>, Profile),
    (u8, Seq<char>),
> {
    let found = issuers_found(dir, selector, present, 3);
    if found.len() == 1 {
        Ok(found[0])
    } else if found.len() > 1 {
        Err(
            (
                4,
                "issuer selector is ambiguous: "@ + selector + " ("@ + joined(
                    found.map_values(|f: (Seq<char>, Profile)| f.0),
                    ", "@,
                ) + ")"@,
            ),
        )
    } else if !selector_form(selector) {
        Err((4, "issuer must be root, root:<name>, or intermediate:<name>"@))
    } else {
        Err((4, "issuer certificate does not exist for selector: "@ + selector))
    }
}

/// Resolves an issuer selector to the one certificate it names; `present[i]` tells whether
/// the candidate of the `i`-th profile (see `issuer_candidates`) is a file. None found is
/// an error, and so is more than one: the layout must not be chosen from arbitrarily.
pub fn resolve_issuer(dir: &str, selector: &str, present: &[bool]) -> (r: Result<
    ResolvedIssuer,
    Failure,
>)
    requires
        present@.len() == 3,
    ensures
        match r {
            Ok(issuer) => resolution(dir@, selector@, present@) == Ok::<(Seq<char>, Profile), (u8, Seq<char>)>((issuer.path@, issuer.profile)),
            Err(e) => resolution(dir@, selector@, present@) == Err::<(Seq<char>, Profile), (u8, Seq<char>)>((e.0, e.1@)),
        },
{
    let profiles = Profile::all();
    let mut paths: Vec<String> = Vec::new();
    let mut kinds: Vec<Profile> = Vec::new();
    let mut i: usize = 0;
    while i < 3
        invariant
            present@.len() == 3,
            profiles@ == all_profiles(),
            i <= 3,
            paths@.len() == kinds@.len(),
            paths.deep_view() == issuers_found(dir@, selector@, present@, i as int).map_values(|f: (Seq<char>, Profile)| f.0),
            kinds@ == issuers_found(dir@, selector@, present@, i as int).map_values(|f: (Seq<char>, Profile)| f.1),
        decreases 3 - i,
    {
        let profile = profiles[i];
        let ghost prev = issuers_found(dir@, selector@, present@, i as int);
        let ghost old_paths = paths@;
        let ghost old_kinds = kinds@;
        assert(profile == all_profiles()[i as int]);
        match issuer_candidate(dir, selector, profile) {
            Some(path) => {
                if present[i] {
                    let ghost pv = path@;
                    let ghost old_deep = paths.deep_view();
                    paths.push(path);
                    assert(paths.deep_view() =~= old_deep.push(pv));
                    kinds.push(profile);
                    proof {
                        let next = issuers_found(dir@, selector@, present@, i + 1);
                        assert(next == prev.push((pv, profile)));
                        assert(paths.deep_view() =~= next.map_values(|f: (Seq<char>, Profile)| f.0));
                        assert(kinds@ =~= next.map_values(|f: (Seq<char>, Profile)| f.1));
                    }
                } else {
                    assert(issuers_found(dir@, selector@, present@, i + 1) == prev);
                }
            },
            None => {
                assert(issuers_found(dir@, selector@, present@, i + 1) == prev);
            },
        }
        i = i + 1;
    }
    let ghost found = issuers_found(dir@, selector@, present@, 3);
    if paths.len() == 1 {
        assert(paths.deep_view()[0] == found[0].0);
        return Ok(ResolvedIssuer { path: paths[0].clone(), profile: kinds[0] });
    }
    if paths.len() > 1 {
        let listed = join(&paths, ", ");
        assert(paths.deep_view() =~= found.map_values(|f: (Seq<char>, Profile)| f.0));
        let mut message = owned("issuer selector is ambiguous: ");
        message.append(selector);
        message.append(" (");
        message.append(listed.as_str());
        message.append(")");
        return Err((4, message));
    }
    if !text_eq(selector, "root") && !text_starts_with(selector, "root:") && !text_starts_with(
        selector,
        "intermediate:",
    ) {
        return Err((4, owned("issuer must be root, root:<name>, or intermediate:<name>")));
    }
    let mut message = owned("issuer certificate does not exist for selector: ");
    message.append(selector);
    Err((4, message))
}

} // verus!
