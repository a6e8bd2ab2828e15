//! Package patterns: a restricted glob in which `*` stands for any run of bytes.

use vstd::prelude::*;

verus! {

/// The wildcard byte, `*`.
pub const STAR: u8 = 42;

/// The pattern from position `i` on matches the text from position `j` on.
pub open spec fn glob_at(p: Seq<u8>, t: Seq<u8>, i: int, j: int) -> bool
    decreases p.len() - i, t.len() - j,
{
    if i < 0 || j < 0 || i > p.len() || j > t.len() {
        false
    } else if i == p.len() {
        j == t.len()
    } else if p[i] == STAR {
        glob_at(p, t, i + 1, j) || (j < t.len() && glob_at(p, t, i, j + 1))
    } else {
        j < t.len() && t[j] == p[i] && glob_at(p, t, i + 1, j + 1)
    }
}

/// The whole pattern matches the whole text.
pub open spec fn glob_matches(p: Seq<u8>, t: Seq<u8>) -> bool {
    glob_at(p, t, 0, 0)
}

/// A pattern is well formed when it is not empty, holds only printable ASCII
/// without blanks, and never has two wildcards in a row.
pub open spec fn valid_pattern(p: Seq<u8>) -> bool {
    &&& p.len() > 0
    &&& forall|k: int| 0 <= k < p.len() ==> 33 <= #[trigger] p[k] <= 126
    &&& forall|k: int| 0 <= k < p.len() - 1 ==> !(#[trigger] p[k] == STAR && p[k + 1] == STAR)
}

/// Decides whether a pattern is well formed.
pub fn is_valid_pattern(p: &Vec<u8>) -> (r: bool)
    ensures
        r == valid_pattern(p@),
{
    if p.len() == 0 {
        return false;
    }
    let mut i: usize = 0;
    while i < p.len()
        invariant
            i <= p.len(),
            forall|k: int| 0 <= k < i ==> 33 <= #[trigger] p@[k] <= 126,
            forall|k: int| 0 <= k < i - 1 ==> !(#[trigger] p@[k] == STAR && p@[k + 1] == STAR),
        decreases p.len() - i,
    {
        let b: u8 = p[i];
        if b < 33 || b > 126 {
            return false;
        }
        if i > 0 && b == STAR && p[i - 1] == STAR {
            assert(p@[i - 1] == STAR && p@[i - 1 + 1] == STAR);
            return false;
        }
        i += 1;
    }
    true
}

/// Decides whether a pattern matches a text, in time proportional to the
/// product of their lengths.
pub fn glob_match(p: &Vec<u8>, t: &Vec<u8>) -> (r: bool)
    ensures
        r == glob_matches(p@, t@),
{
    let n: usize = t.len();
    let m: usize = p.len();
    let mut row: Vec<bool> = Vec::new();
    let mut j: usize = 0;
    while j < n
        invariant
            j <= n,
            n == t.len(),
            m == p.len(),
            row.len() == j,
            forall|x: int| 0 <= x < j ==> row@[x] == glob_at(p@, t@, m as int, x),
        decreases n - j,
    {
        row.push(false);
        j += 1;
    }
    row.push(true);
    let mut i: usize = m;
    while i > 0
        invariant
            i <= m,
            n == t.len(),
            m == p.len(),
            row.len() == n + 1,
            forall|x: int| 0 <= x <= n ==> row@[x] == glob_at(p@, t@, i as int, x),
        decreases i,
    {
        i -= 1;
        let c: u8 = p[i];
        if c == STAR {
            let mut k: usize = n;
            while k > 0
                invariant
                    k <= n,
                    i < m,
                    n == t.len(),
                    m == p.len(),
                    p@[i as int] == STAR,
                    row.len() == n + 1,
                    forall|x: int| k <= x <= n ==> row@[x] == glob_at(p@, t@, i as int, x),
                    forall|x: int| 0 <= x < k ==> row@[x] == glob_at(p@, t@, i + 1, x),
                decreases k,
            {
                k -= 1;
                let v: bool = row[k] || row[k + 1];
                row.set(k, v);
            }
        } else {
            let mut k: usize = 0;
            while k < n
                invariant
                    k <= n,
                    i < m,
                    n == t.len(),
                    m == p.len(),
                    p@[i as int] == c,
                    c != STAR,
                    row.len() == n + 1,
                    forall|x: int| 0 <= x < k ==> row@[x] == glob_at(p@, t@, i as int, x),
                    forall|x: int| k <= x <= n ==> row@[x] == glob_at(p@, t@, i + 1, x),
                decreases n - k,
            {
                let v: bool = t[k] == c && row[k + 1];
                row.set(k, v);
                k += 1;
            }
            row.set(n, false);
        }
    }
    row[0]
}

/// A trailing wildcard matches whatever is left of the text.
pub proof fn lemma_trailing_wildcard(p: Seq<u8>, t: Seq<u8>, j: int)
    requires
        p.len() > 0,
        p.last() == STAR,
        0 <= j <= t.len(),
    ensures
        glob_at(p, t, p.len() - 1, j),
    decreases t.len() - j,
{
    if j < t.len() {
        lemma_trailing_wildcard(p, t, j + 1);
    } else {
        assert(glob_at(p, t, p.len() as int, j));
    }
}

/// A pattern made of a literal prefix and one final wildcard matches every
/// text that begins with that prefix.
pub proof fn lemma_prefix_wildcard(prefix: Seq<u8>, text: Seq<u8>)
    requires
        forall|k: int| 0 <= k < prefix.len() ==> prefix[k] != STAR,
        prefix.len() <= text.len(),
        text.subrange(0, prefix.len() as int) == prefix,
    ensures
        glob_matches(prefix.push(STAR), text),
{
    lemma_prefix_wildcard_from(prefix, text, 0);
}

proof fn lemma_prefix_wildcard_from(prefix: Seq<u8>, text: Seq<u8>, i: int)
    requires
        forall|k: int| 0 <= k < prefix.len() ==> prefix[k] != STAR,
        prefix.len() <= text.len(),
        text.subrange(0, prefix.len() as int) == prefix,
        0 <= i <= prefix.len(),
    ensures
        glob_at(prefix.push(STAR), text, i, i),
    decreases prefix.len() - i,
{
    let p = prefix.push(STAR);
    if i == prefix.len() {
        lemma_trailing_wildcard(p, text, i);
    } else {
        lemma_prefix_wildcard_from(prefix, text, i + 1);
        assert(p[i] == prefix[i]);
        assert(text.subrange(0, prefix.len() as int)[i] == text[i]);
    }
}

/// A pattern without a wildcard matches its own text and no other.
pub proof fn lemma_literal_pattern(p: Seq<u8>, t: Seq<u8>)
    requires
        forall|k: int| 0 <= k < p.len() ==> p[k] != STAR,
    ensures
        glob_matches(p, t) <==> p == t,
{
    lemma_literal_from(p, t, 0);
    assert(p.skip(0) =~= p);
    assert(t.skip(0) =~= t);
}

proof fn lemma_literal_from(p: Seq<u8>, t: Seq<u8>, i: int)
    requires
        forall|k: int| 0 <= k < p.len() ==> p[k] != STAR,
        0 <= i <= p.len(),
    ensures
        i <= t.len() ==> (glob_at(p, t, i, i) <==> p.skip(i) == t.skip(i)),
    decreases p.len() - i,
{
    if i <= t.len() {
        if i == p.len() {
            if i == t.len() {
                assert(p.skip(i) =~= t.skip(i));
            } else {
                assert(p.skip(i).len() != t.skip(i).len());
            }
        } else {
            lemma_literal_from(p, t, i + 1);
            if i < t.len() {
                if p.skip(i) == t.skip(i) {
                    assert(p.skip(i)[0] == t.skip(i)[0]);
                    assert(p.skip(i + 1) =~= p.skip(i).skip(1));
                    assert(t.skip(i + 1) =~= t.skip(i).skip(1));
                }
                if t[i] == p[i] && p.skip(i + 1) == t.skip(i + 1) {
                    assert(p.skip(i + 1).len() == t.skip(i + 1).len());
                    assert forall|x: int| 0 <= x < p.skip(i).len() implies p.skip(i)[x] == t.skip(
                        i,
                    )[x] by {
                        if x > 0 {
                            assert(p.skip(i)[x] == p.skip(i + 1)[x - 1]);
                            assert(t.skip(i)[x] == t.skip(i + 1)[x - 1]);
                        }
                    }
                    assert(p.skip(i) =~= t.skip(i));
                }
            } else {
                assert(p.skip(i).len() != t.skip(i).len());
            }
        }
    }
}

} // verus!
