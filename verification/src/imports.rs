//! Removal of self-referential import statements.
//!
//! When a stub's dependency files are merged into a destination's WIT
//! tree, an import statement that references the destination's own
//! derived stub package (`namespace:name-stub`, optionally followed by a
//! `/`-sub-path) can no longer be satisfied; each such statement is
//! removed whole, and all other text is kept unchanged.

use vstd::prelude::*;
use vstd::string::*;

use crate::model::{PackageName, PackageNameV};

verus! {

/// Whitespace accepted between the keyword and the package reference.
pub open spec fn is_wit_space(c: char) -> bool {
    c == ' ' || c == '\t' || c == '\n' || c == '\r'
}

/// The length of the leading whitespace run.
pub open spec fn ws_run_len(s: Seq<char>) -> int
    decreases s.len(),
{
    if s.len() > 0 && is_wit_space(s[0]) {
        1 + ws_run_len(s.drop_first())
    } else {
        0
    }
}

proof fn lemma_ws_run_len_bounds(s: Seq<char>)
    ensures
        0 <= ws_run_len(s) <= s.len(),
    decreases s.len(),
{
    if s.len() > 0 && is_wit_space(s[0]) {
        lemma_ws_run_len_bounds(s.drop_first());
    }
}

/// The position of the first `;`, if any.
pub open spec fn find_semi(s: Seq<char>) -> Option<int>
    decreases s.len(),
{
    if s.len() == 0 {
        None
    } else if s[0] == ';' {
        Some(0)
    } else {
        match find_semi(s.drop_first()) {
            Some(k) => Some(k + 1),
            None => None,
        }
    }
}

proof fn lemma_find_semi_bounds(s: Seq<char>)
    ensures
        find_semi(s) matches Some(k) ==> 0 <= k < s.len(),
    decreases s.len(),
{
    if s.len() > 0 && s[0] != ';' {
        lemma_find_semi_bounds(s.drop_first());
    }
}

/// The import keyword.
pub open spec fn import_kw() -> Seq<char> {
    seq!['i', 'm', 'p', 'o', 'r', 't']
}

/// The length of an import statement for the package `pat` standing at
/// the head of `s`: the keyword, at least one whitespace character, the
/// package reference, an optional `/`-sub-path of non-`;` characters,
/// and the closing `;`.
pub open spec fn match_len(s: Seq<char>, pat: Seq<char>) -> Option<int> {
    if s.len() >= 6 && s.subrange(0, 6) == import_kw() {
        let w = ws_run_len(s.skip(6));
        if w > 0 && 6 + w + pat.len() <= s.len() && s.subrange(
            6 + w,
            6 + w + pat.len() as int,
        ) == pat {
            let q = 6 + w + pat.len() as int;
            if q < s.len() && s[q] == ';' {
                Some(q + 1)
            } else if q < s.len() && s[q] == '/' {
                match find_semi(s.skip(q)) {
                    Some(k) => Some(q + k + 1),
                    None => None,
                }
            } else {
                None
            }
        } else {
            None
        }
    } else {
        None
    }
}

proof fn lemma_match_len_bounds(s: Seq<char>, pat: Seq<char>)
    ensures
        match_len(s, pat) matches Some(l) ==> 1 <= l <= s.len(),
{
    if s.len() >= 6 && s.subrange(0, 6) == import_kw() {
        lemma_ws_run_len_bounds(s.skip(6));
        let w = ws_run_len(s.skip(6));
        if w > 0 && 6 + w + pat.len() <= s.len() {
            let q = 6 + w + pat.len() as int;
            if q < s.len() && s[q] == ';' {
            } else if q < s.len() && s[q] == '/' {
                lemma_find_semi_bounds(s.skip(q));
            }
        }
    }
}

/// The text with every import statement of the package `pat` removed.
pub open spec fn strip_spec(s: Seq<char>, pat: Seq<char>) -> Seq<char>
    decreases s.len(),
    via strip_spec_dec
{
    if s.len() == 0 {
        Seq::empty()
    } else {
        match match_len(s, pat) {
            Some(l) => strip_spec(s.skip(l), pat),
            None => seq![s[0]] + strip_spec(s.drop_first(), pat),
        }
    }
}

#[via_fn]
proof fn strip_spec_dec(s: Seq<char>, pat: Seq<char>) {
    lemma_match_len_bounds(s, pat);
}

/// The reference that a destination package's derived stub package
/// carries in an import statement: `namespace:name-stub`.
pub open spec fn self_stub_pattern(p: PackageNameV) -> Seq<char> {
    p.namespace + ":"@ + p.name + "-stub"@
}

// ---------------------------------------------------------------------------
// Executable scanning.
// ---------------------------------------------------------------------------

/// Whether the characters of `pat` stand at position `i` of `s`.
fn text_eq_at(s: &String, i: usize, n: usize, pat: &String, m: usize) -> (r: bool)
    requires
        n == s@.len(),
        m == pat@.len(),
        i <= n,
    ensures
        r == (i + m <= n && s@.subrange(i as int, i + m) == pat@),
{
    if m > n - i {
        return false;
    }
    let mut k: usize = 0;
    while k < m
        invariant
            k <= m,
            i + m <= n,
            n == s@.len(),
            m == pat@.len(),
            forall|t: int| 0 <= t < k ==> s@[i + t] == pat@[t],
        decreases m - k,
    {
        if s.as_str().get_char(i + k) != pat.as_str().get_char(k) {
            return false;
        }
        k += 1;
    }
    assert(s@.subrange(i as int, i + m) =~= pat@);
    true
}

fn space_at(s: &String, i: usize) -> (r: bool)
    requires
        i < s@.len(),
    ensures
        r == is_wit_space(s@[i as int]),
{
    let c = s.as_str().get_char(i);
    c == ' ' || c == '\t' || c == '\n' || c == '\r'
}

fn non_semi_at(s: &String, i: usize) -> (r: bool)
    requires
        i < s@.len(),
    ensures
        r == (s@[i as int] != ';'),
{
    let c = s.as_str().get_char(i);
    c != ';'
}

/// The length of the import statement for `pat` at position `i`, if one
/// stands there.
fn match_at(s: &String, i: usize, n: usize, pat: &String, m: usize) -> (r: Option<usize>)
    requires
        n == s@.len(),
        m == pat@.len(),
        i < n,
    ensures
        r matches Some(l) ==> match_len(s@.skip(i as int), pat@) == Some(l as int) && 1 <= l <= n
            - i,
        r is None ==> match_len(s@.skip(i as int), pat@) is None,
{
    let ghost suf = s@.skip(i as int);
    assert(suf.len() == n - i);

    // the keyword
    if n - i < 6 {
        return None;
    }
    let kw_ok = s.as_str().get_char(i) == 'i' && s.as_str().get_char(i + 1) == 'm'
        && s.as_str().get_char(i + 2) == 'p' && s.as_str().get_char(i + 3) == 'o'
        && s.as_str().get_char(i + 4) == 'r' && s.as_str().get_char(i + 5) == 't';
    if !kw_ok {
        proof {
            if suf.subrange(0, 6) == import_kw() {
                assert(suf.subrange(0, 6)[0] == suf[0]);
                assert(suf.subrange(0, 6)[1] == suf[1]);
                assert(suf.subrange(0, 6)[2] == suf[2]);
                assert(suf.subrange(0, 6)[3] == suf[3]);
                assert(suf.subrange(0, 6)[4] == suf[4]);
                assert(suf.subrange(0, 6)[5] == suf[5]);
                assert(false);
            }
        }
        return None;
    }
    assert(suf.subrange(0, 6) =~= import_kw());

    // the whitespace run
    let mut e: usize = i + 6;
    while e < n && space_at(s, e)
        invariant
            i + 6 <= e <= n,
            n == s@.len(),
            suf == s@.skip(i as int),
            ws_run_len(s@.skip(i + 6)) == (e - (i + 6)) + ws_run_len(s@.skip(e as int)),
            forall|t: int| i + 6 <= t < e ==> is_wit_space(s@[t]),
        decreases n - e,
    {
        proof {
            let tail = s@.skip(e as int);
            assert(tail[0] == s@[e as int]);
            assert(tail.drop_first() =~= s@.skip(e + 1));
        }
        e += 1;
    }
    proof {
        let tail = s@.skip(e as int);
        if e < n {
            assert(tail[0] == s@[e as int]);
            assert(!is_wit_space(tail[0]));
        }
        assert(ws_run_len(tail) == 0);
        assert(ws_run_len(s@.skip(i + 6)) == e - (i + 6));
        assert(suf.skip(6) =~= s@.skip(i + 6));
    }
    let w = e - (i + 6);
    if w == 0 {
        return None;
    }

    // the package reference
    if !text_eq_at(s, e, n, pat, m) {
        proof {
            if 6 + (w as int) + pat@.len() <= suf.len() {
                assert(suf.subrange(6 + w, 6 + w + pat@.len() as int) =~= s@.subrange(
                    e as int,
                    e + m,
                ));
            }
        }
        return None;
    }
    assert(suf.subrange(6 + w, 6 + w + pat@.len() as int) =~= s@.subrange(e as int, e + m));

    let q = e + m;
    assert(q - i == 6 + w + pat@.len());
    if q >= n {
        return None;
    }
    let cq = s.as_str().get_char(q);
    assert(suf[q - i] == s@[q as int]);
    if cq == ';' {
        assert(match_len(suf, pat@) == Some(q - i + 1));
        return Some(q - i + 1);
    }
    if cq != '/' {
        return None;
    }

    // the sub-path: scan for the closing `;`
    let mut f: usize = q;
    while f < n && non_semi_at(s, f)
        invariant
            q <= f <= n,
            n == s@.len(),
            (match find_semi(s@.skip(f as int)) {
                Some(k) => find_semi(s@.skip(q as int)) == Some(k + (f - q)),
                None => find_semi(s@.skip(q as int)) is None,
            }),
        decreases n - f,
    {
        proof {
            let tail = s@.skip(f as int);
            assert(tail[0] == s@[f as int]);
            assert(tail.drop_first() =~= s@.skip(f + 1));
        }
        f += 1;
    }
    proof {
        assert(suf.skip(q - i) =~= s@.skip(q as int));
    }
    if f == n {
        proof {
            assert(s@.skip(f as int).len() == 0);
            assert(find_semi(s@.skip(q as int)) is None);
        }
        return None;
    }
    proof {
        let tail = s@.skip(f as int);
        assert(tail[0] == s@[f as int]);
        assert(find_semi(tail) == Some(0int));
        assert(find_semi(s@.skip(q as int)) == Some((f - q) as int));
        assert(match_len(suf, pat@) == Some((q - i) + (f - q) + 1));
    }
    Some(f - i + 1)
}

/// Removes every import statement that references the destination's
/// derived stub package (`namespace:name-stub`, optionally with a
/// sub-path); all other text is kept unchanged.
pub fn replace_self_imports_from_dependencies(content: &String, destination: &PackageName) -> (r:
    String)
    ensures
        r@ == strip_spec(content@, self_stub_pattern(destination@)),
{
    let mut pat = destination.namespace.clone();
    pat.append(":");
    pat.append(destination.name.as_str());
    pat.append("-stub");
    assert(pat@ == self_stub_pattern(destination@));

    let n = content.as_str().unicode_len();
    let m = pat.as_str().unicode_len();
    let ghost cv = content@;
    let ghost pv = pat@;

    let mut out = String::new();
    let mut run_start: usize = 0;
    let mut i: usize = 0;
    proof {
        assert(cv.skip(0) =~= cv);
        assert(out@ + cv.subrange(0, 0) + strip_spec(cv, pv) =~= strip_spec(cv, pv));
    }
    while i < n
        invariant
            run_start <= i <= n,
            n == cv.len(),
            m == pv.len(),
            cv == content@,
            pv == pat@,
            strip_spec(cv, pv) == out@ + cv.subrange(run_start as int, i as int) + strip_spec(
                cv.skip(i as int),
                pv,
            ),
        decreases n - i,
    {
        let hit = match_at(content, i, n, &pat, m);
        match hit {
            Some(l) => {
                let ghost pre = out@;
                let run = content.as_str().substring_char(run_start, i);
                out.append(run);
                proof {
                    let x = cv.skip(i as int);
                    assert(x.skip(l as int) =~= cv.skip(i + l));
                    assert(strip_spec(x, pv) == strip_spec(cv.skip(i + l), pv));
                    assert(out@ == pre + cv.subrange(run_start as int, i as int));
                    assert(out@ + cv.subrange(i + l, i + l) + strip_spec(cv.skip(i + l), pv)
                        =~= pre + cv.subrange(run_start as int, i as int) + strip_spec(
                        x,
                        pv,
                    ));
                }
                i += l;
                run_start = i;
            },
            None => {
                proof {
                    let x = cv.skip(i as int);
                    assert(x.len() > 0);
                    assert(x[0] == cv[i as int]);
                    assert(x.drop_first() =~= cv.skip(i + 1));
                    assert(strip_spec(x, pv) == seq![cv[i as int]] + strip_spec(
                        cv.skip(i + 1),
                        pv,
                    ));
                    assert(cv.subrange(run_start as int, i as int) + (seq![cv[i as int]]
                        + strip_spec(cv.skip(i + 1), pv)) =~= cv.subrange(
                        run_start as int,
                        i + 1,
                    ) + strip_spec(cv.skip(i + 1), pv));
                    assert(out@ + cv.subrange(run_start as int, i as int) + strip_spec(x, pv)
                        =~= out@ + cv.subrange(run_start as int, i + 1) + strip_spec(
                        cv.skip(i + 1),
                        pv,
                    ));
                }
                i += 1;
            },
        }
    }
    let ghost pre = out@;
    let run = content.as_str().substring_char(run_start, n);
    out.append(run);
    proof {
        assert(cv.skip(n as int).len() == 0);
        assert(strip_spec(cv.skip(n as int), pv) =~= Seq::<char>::empty());
        assert(pre + cv.subrange(run_start as int, n as int) + strip_spec(cv.skip(n as int), pv)
            =~= out@);
    }
    out
}

} // verus!
