//! Virtual path discipline.
//!
//! Every resource is addressed by a slash-rooted virtual path.  Paths are
//! compared literally: stores do not canonicalize `..` segments, so the
//! well-formedness predicate here only demands an absolute path without
//! empty segments or a trailing slash.  This module defines the path
//! predicates used by every store, the parent/descendant/child relations
//! between paths, and executable checks proved against them.

use vstd::prelude::*;
use vstd::string::*;

verus! {

/// The root virtual path `/`, as a sequence of characters.
pub open spec fn root_path() -> Seq<char> {
    seq!['/']
}

/// An absolute virtual path begins with `/`.
pub open spec fn is_abs(p: Seq<char>) -> bool {
    p.len() >= 1 && p[0] == '/'
}

/// Whether `p` is the root path itself.
pub open spec fn is_root(p: Seq<char>) -> bool {
    p.len() == 1 && p[0] == '/'
}

/// A well-formed virtual path: absolute, without empty segments, and
/// without a trailing slash (the root alone is a single slash).
pub open spec fn valid_path(p: Seq<char>) -> bool {
    &&& is_abs(p)
    &&& (p.len() == 1 || p[p.len() - 1] != '/')
    &&& forall|i: int| #![trigger p[i]] 0 < i < p.len() ==> !(p[i - 1] == '/' && p[i] == '/')
}

/// The prefix every entry below directory `d` starts with: `d` itself for
/// the root, otherwise `d` followed by a slash.
pub open spec fn dir_prefix(d: Seq<char>) -> Seq<char> {
    if is_root(d) {
        d
    } else {
        d.push('/')
    }
}

/// Whether `a` occurs at the start of `b`.
pub open spec fn seq_prefix_of(a: Seq<char>, b: Seq<char>) -> bool {
    a.len() <= b.len() && forall|i: int| #![trigger a[i]] 0 <= i < a.len() ==> a[i] == b[i]
}

/// Whether `q` lies strictly below directory `d` (at any depth).
pub open spec fn under(q: Seq<char>, d: Seq<char>) -> bool {
    dir_prefix(d).len() < q.len() && seq_prefix_of(dir_prefix(d), q)
}

/// Whether `q` is a direct child of directory `d`.
pub open spec fn child_of(q: Seq<char>, d: Seq<char>) -> bool {
    under(q, d) && forall|i: int| #![trigger q[i]] dir_prefix(d).len() <= i < q.len() ==> q[i] != '/'
}

/// The index of the last slash in `p`, or a negative value if there is
/// none.
pub open spec fn last_slash(p: Seq<char>) -> int
    decreases p.len(),
{
    if p.len() == 0 {
        -1
    } else if p[p.len() - 1] == '/' {
        p.len() - 1
    } else {
        last_slash(p.drop_last())
    }
}

/// The directory a path sits in: everything up to the last slash, or the
/// root when the last slash is the leading one.
pub open spec fn parent_of(p: Seq<char>) -> Seq<char> {
    if last_slash(p) <= 0 {
        root_path()
    } else {
        p.subrange(0, last_slash(p))
    }
}

/// The ancestors of `p` together with `p` itself: exactly the directories
/// `mkdir` must provide for `p` to exist.
pub open spec fn anc_or_self(p: Seq<char>) -> Set<Seq<char>> {
    Set::new(|q: Seq<char>| q == p || (valid_path(q) && under(p, q)))
}

/// The set of paths a recursive removal of `p` takes away: `p` itself and
/// everything strictly below it.
pub open spec fn doomed_by(p: Seq<char>) -> Set<Seq<char>> {
    Set::new(|q: Seq<char>| q == p || under(q, p))
}

/// An absolute path has a last slash; nothing after it is a slash.
pub proof fn lemma_last_slash(p: Seq<char>)
    requires
        is_abs(p),
    ensures
        0 <= last_slash(p) < p.len(),
        p[last_slash(p)] == '/',
        forall|i: int| #![trigger p[i]] last_slash(p) < i < p.len() ==> p[i] != '/',
    decreases p.len(),
{
    if p.len() == 1 {
        assert(p[0] == '/');
    } else if p[p.len() - 1] == '/' {
    } else {
        assert(p.drop_last() =~= p.subrange(0, p.len() - 1));
        lemma_last_slash(p.drop_last());
        assert forall|i: int| last_slash(p) < i < p.len() implies p[i] != '/' by {
            if i < p.len() - 1 {
                assert(p.drop_last()[i] == p[i]);
            }
        }
    }
}

/// The root path is well formed.
pub proof fn lemma_root_valid()
    ensures
        valid_path(root_path()),
        is_root(root_path()),
{
    assert(root_path()[0] == '/');
}

/// The parent of a well-formed non-root path: shorter, well formed, and
/// the path is one of its direct children.
pub proof fn lemma_parent(p: Seq<char>)
    requires
        valid_path(p),
        !is_root(p),
    ensures
        valid_path(parent_of(p)),
        parent_of(p).len() < p.len(),
        child_of(p, parent_of(p)),
        under(p, parent_of(p)),
{
    lemma_last_slash(p);
    let k = last_slash(p);
    assert(p.len() >= 2);
    assert(p[p.len() - 1] != '/');
    assert(k < p.len() - 1);
    if k == 1 {
        // would be a double slash at the front
        assert(p[0] == '/' && p[1] == '/');
        assert(false);
    }
    if k == 0 {
        lemma_root_valid();
        let par = parent_of(p);
        assert(par =~= root_path());
        assert(dir_prefix(par) =~= root_path());
        assert(seq_prefix_of(dir_prefix(par), p));
        assert(under(p, par));
        assert forall|i: int| dir_prefix(par).len() <= i < p.len() implies p[i] != '/' by {}
    } else {
        let par = p.subrange(0, k);
        assert(parent_of(p) == par);
        // well-formed: starts with a slash, no trailing slash, no empty segment
        assert(par[0] == '/');
        assert(!(p[k - 1] == '/' && p[k] == '/'));
        assert(par[par.len() - 1] == p[k - 1]);
        assert(par.len() == k >= 2);
        assert(!is_root(par));
        assert forall|i: int| 0 < i < par.len() implies !(#[trigger] par[i] == '/' && par[i - 1] == '/') by {
            assert(par[i] == p[i]);
            assert(par[i - 1] == p[i - 1]);
        }
        assert(valid_path(par));
        // p is a direct child of par
        let dp = dir_prefix(par);
        assert(dp == par.push('/'));
        assert(dp.len() == k + 1);
        assert forall|i: int| 0 <= i < dp.len() implies dp[i] == p[i] by {
            if i < k {
                assert(dp[i] == par[i]);
            } else {
                assert(dp[k] == '/');
            }
        }
        assert(seq_prefix_of(dp, p));
        assert(under(p, par));
        assert forall|i: int| dp.len() <= i < p.len() implies p[i] != '/' by {}
    }
}

/// Lying below a directory is transitive.
pub proof fn lemma_under_trans(a: Seq<char>, b: Seq<char>, c: Seq<char>)
    requires
        under(a, b),
        under(b, c),
    ensures
        under(a, c),
{
    assert(dir_prefix(c).len() >= 1);
    assert(b.len() >= 2);
    assert(!is_root(b));
    let dpb = dir_prefix(b);
    let dpc = dir_prefix(c);
    assert(dpb == b.push('/'));
    assert forall|i: int| 0 <= i < dpc.len() implies dpc[i] == a[i] by {
        assert(dpc[i] == b[i]);
        assert(dpb[i] == b[i]);
        assert(a[i] == dpb[i]);
    }
    assert(a.len() > b.len() + 1);
}

/// Decomposition of the ancestor relation through the parent: the
/// well-formed paths strictly above `p` are exactly its parent and the
/// well-formed paths strictly above the parent.
pub proof fn lemma_under_parent(p: Seq<char>, q: Seq<char>)
    requires
        valid_path(p),
        !is_root(p),
        valid_path(q),
    ensures
        under(p, q) <==> (q == parent_of(p) || under(parent_of(p), q)),
{
    lemma_last_slash(p);
    lemma_parent(p);
    let k = last_slash(p);
    let par = parent_of(p);
    if under(p, q) {
        let dq = dir_prefix(q);
        let m = dq.len();
        assert(1 <= m < p.len());
        assert(p[m - 1] == dq[m - 1]);
        assert(dq[m - 1] == '/') by {
            if is_root(q) {
                assert(dq[0] == '/');
            } else {
                assert(dq == q.push('/'));
            }
        }
        // the slash ending the prefix is at or before the last slash of p
        assert(m - 1 <= k);
        if m - 1 == k {
            // q is exactly the parent of p
            if k == 0 {
                assert(m == 1);
                if is_root(q) {
                    assert(q =~= root_path());
                    assert(q == par);
                } else {
                    assert(dq == q.push('/'));
                    assert(q.len() == 0);
                    assert(false);
                }
            } else {
                assert(k >= 2);
                if is_root(q) {
                    assert(m == 1);
                    assert(false);
                } else {
                    assert(dq == q.push('/'));
                    assert(q.len() == k);
                    assert forall|i: int| 0 <= i < k implies q[i] == p[i] by {
                        assert(dq[i] == q[i]);
                        assert(dq[i] == p[i]);
                    }
                    assert(q =~= p.subrange(0, k));
                    assert(q == par);
                }
            }
        } else {
            // q lies strictly above the parent of p
            assert(m - 1 < k);
            assert(k >= 2) by {
                if k == 0 {
                    assert(m - 1 < 0);
                    assert(false);
                }
            }
            assert(par == p.subrange(0, k));
            assert(m < k) by {
                if m == k {
                    assert(p[m - 1] == '/');
                    assert(p[k] == '/');
                    assert(!(p[k - 1] == '/' && p[k] == '/'));
                    assert(false);
                }
            }
            assert forall|i: int| 0 <= i < m implies dq[i] == par[i] by {
                assert(dq[i] == p[i]);
                assert(par[i] == p[i]);
            }
            assert(seq_prefix_of(dq, par));
            assert(under(par, q));
        }
    }
    if q == par {
        assert(under(p, q));
    }
    if under(par, q) {
        lemma_under_trans(p, par, q);
    }
}

/// Everything in the ancestor set of `p` is shorter than `p` or `p`
/// itself; in particular the parent's ancestor set never contains `p`.
pub proof fn lemma_anc_shorter(p: Seq<char>, q: Seq<char>)
    requires
        anc_or_self(p).contains(q),
    ensures
        q == p || q.len() < p.len(),
{
    if q != p {
        assert(under(p, q));
        assert(dir_prefix(q).len() >= q.len());
    }
}

/// The ancestor set of the root is just the root.
pub proof fn lemma_anc_root()
    ensures
        anc_or_self(root_path()) =~= set![root_path()],
{
    lemma_root_valid();
    assert forall|q: Seq<char>| anc_or_self(root_path()).contains(q) implies q == root_path() by {
        if q != root_path() {
            assert(under(root_path(), q));
            assert(dir_prefix(q).len() >= 1);
        }
    }
    assert(anc_or_self(root_path()).contains(root_path()));
}

/// Unfolding the ancestor set of a non-root path through its parent.
pub proof fn lemma_anc_unfold(p: Seq<char>)
    requires
        valid_path(p),
        !is_root(p),
    ensures
        anc_or_self(p) =~= anc_or_self(parent_of(p)).insert(p),
{
    lemma_parent(p);
    let par = parent_of(p);
    assert forall|q: Seq<char>| anc_or_self(p).contains(q) implies anc_or_self(par).insert(p).contains(q) by {
        if q != p {
            assert(valid_path(q) && under(p, q));
            lemma_under_parent(p, q);
        }
    }
    assert forall|q: Seq<char>| anc_or_self(par).insert(p).contains(q) implies anc_or_self(p).contains(q) by {
        if q != p {
            assert(anc_or_self(par).contains(q));
            if q == par {
                assert(valid_path(q) && under(p, q));
            } else {
                assert(valid_path(q) && under(par, q));
                lemma_under_parent(p, q);
            }
        }
    }
}

/// Whether `p` is exactly the root path.
pub fn path_is_root(p: &str) -> (b: bool)
    ensures
        b == is_root(p@),
{
    let n = p.unicode_len();
    n == 1 && p.get_char(0) == '/'
}

/// Whether `p` is a well-formed virtual path.
pub fn path_is_valid(p: &str) -> (b: bool)
    ensures
        b == valid_path(p@),
{
    let n = p.unicode_len();
    if n == 0 {
        return false;
    }
    if p.get_char(0) != '/' {
        return false;
    }
    if n > 1 && p.get_char(n - 1) == '/' {
        return false;
    }
    let mut i: usize = 1;
    while i < n
        invariant
            1 <= i <= n,
            n == p@.len(),
            is_abs(p@),
            p@.len() == 1 || p@[p@.len() - 1] != '/',
            forall|j: int| #![trigger p@[j]] 0 < j < i ==> !(p@[j - 1] == '/' && p@[j] == '/'),
        decreases n - i,
    {
        if p.get_char(i - 1) == '/' && p.get_char(i) == '/' {
            return false;
        }
        i += 1;
    }
    true
}

/// Whether two paths are literally equal.
pub fn path_eq(a: &str, b: &str) -> (r: bool)
    ensures
        r == (a@ == b@),
{
    let sa = String::from_str(a);
    let sb = String::from_str(b);
    sa.eq(&sb)
}

/// Whether `q` lies strictly below directory `d`.
pub fn path_under(q: &str, d: &str) -> (b: bool)
    ensures
        b == under(q@, d@),
{
    let qn = q.unicode_len();
    if path_is_root(d) {
        return qn >= 2 && q.get_char(0) == '/';
    }
    let dn = d.unicode_len();
    if qn <= dn {
        return false;
    }
    if qn - 1 <= dn {
        assert(!under(q@, d@));
        return false;
    }
    let mut i: usize = 0;
    while i < dn
        invariant
            0 <= i <= dn,
            dn == d@.len(),
            qn == q@.len(),
            qn > dn + 1,
            !is_root(d@),
            forall|j: int| #![trigger q@[j]] 0 <= j < i ==> q@[j] == d@[j],
        decreases dn - i,
    {
        if q.get_char(i) != d.get_char(i) {
            assert(dir_prefix(d@)[i as int] == d@[i as int]);
            return false;
        }
        i += 1;
    }
    if q.get_char(dn) != '/' {
        assert(dir_prefix(d@)[dn as int] == '/');
        return false;
    }
    assert forall|j: int| 0 <= j < dir_prefix(d@).len() implies dir_prefix(d@)[j] == q@[j] by {
        if j < dn {
            assert(dir_prefix(d@)[j] == d@[j]);
        }
    }
    true
}

/// Whether `q` is a direct child of directory `d`.
pub fn path_child_of(q: &str, d: &str) -> (b: bool)
    ensures
        b == child_of(q@, d@),
{
    if !path_under(q, d) {
        return false;
    }
    let qn = q.unicode_len();
    let m: usize = if path_is_root(d) {
        1
    } else {
        d.unicode_len() + 1
    };
    assert(m == dir_prefix(d@).len());
    let mut i: usize = m;
    while i < qn
        invariant
            m <= i <= qn,
            qn == q@.len(),
            m == dir_prefix(d@).len(),
            under(q@, d@),
            forall|j: int| #![trigger q@[j]] m <= j < i ==> q@[j] != '/',
        decreases qn - i,
    {
        if q.get_char(i) == '/' {
            return false;
        }
        i += 1;
    }
    true
}

/// The parent directory of a well-formed non-root path.
pub fn path_parent(p: &str) -> (r: String)
    requires
        valid_path(p@),
        !is_root(p@),
    ensures
        r@ == parent_of(p@),
{
    proof {
        lemma_last_slash(p@);
    }
    let ghost ls = last_slash(p@);
    let n = p.unicode_len();
    let mut k: usize = n - 1;
    while p.get_char(k) != '/'
        invariant
            n == p@.len(),
            0 <= ls <= k < n,
            p@[ls] == '/',
            forall|i: int| #![trigger p@[i]] ls < i < p@.len() ==> p@[i] != '/',
        decreases k,
    {
        k = k - 1;
    }
    assert(k == ls);
    if k == 0 {
        proof {
            reveal_strlit("/");
        }
        let r = String::from_str("/");
        assert(r@ =~= root_path());
        r
    } else {
        let sub = p.substring_char(0, k);
        sub.to_owned()
    }
}

} // verus!
