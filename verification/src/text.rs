//! Helpers on byte strings: equality, copies, case folding, search and splitting.

use vstd::prelude::*;

verus! {

/// The contents of each byte vector of a list, in order.
pub open spec fn views(v: Seq<Vec<u8>>) -> Seq<Seq<u8>> {
    v.map_values(|b: Vec<u8>| b@)
}

/// ASCII lower-case form of one byte.
pub open spec fn lower_byte(b: u8) -> u8 {
    if 65 <= b && b <= 90 {
        (b + 32) as u8
    } else {
        b
    }
}

/// ASCII lower-case form of a byte string.
pub open spec fn lower(s: Seq<u8>) -> Seq<u8> {
    s.map_values(|b: u8| lower_byte(b))
}

/// `needle` stands in `hay` at offset `k`.
pub open spec fn occurs_at(hay: Seq<u8>, needle: Seq<u8>, k: int) -> bool {
    0 <= k && k + needle.len() <= hay.len() && hay.subrange(k, k + needle.len()) == needle
}

/// `needle` stands somewhere in `hay`.
pub open spec fn contains(hay: Seq<u8>, needle: Seq<u8>) -> bool {
    exists|k: int| occurs_at(hay, needle, k)
}

/// `item` is one of the entries of `list`.
pub open spec fn has_member(list: Seq<Seq<u8>>, item: Seq<u8>) -> bool {
    exists|k: int| 0 <= k < list.len() && list[k] == item
}

/// The position of the first `b` in `s` from `from` on, or the length of `s`.
pub open spec fn first_at(s: Seq<u8>, b: u8, from: int) -> int
    decreases s.len() - from,
{
    if from < 0 || from >= s.len() {
        s.len() as int
    } else if s[from] == b {
        from
    } else {
        first_at(s, b, from + 1)
    }
}

/// The pieces of `s` between occurrences of `sep`; a string without `sep` is one piece.
pub open spec fn split_spec(s: Seq<u8>, sep: u8) -> Seq<Seq<u8>>
    decreases s.len(),
{
    if s.len() == 0 {
        seq![Seq::<u8>::empty()]
    } else {
        let before = split_spec(s.drop_last(), sep);
        if s.last() == sep {
            before.push(Seq::<u8>::empty())
        } else {
            before.update(before.len() - 1, before.last().push(s.last()))
        }
    }
}

/// Compares two byte strings.
pub fn bytes_eq(a: &Vec<u8>, b: &Vec<u8>) -> (r: bool)
    ensures
        r == (a@ == b@),
{
    if a.len() != b.len() {
        return false;
    }
    let mut i: usize = 0;
    while i < a.len()
        invariant
            i <= a.len(),
            a.len() == b.len(),
            forall|k: int| 0 <= k < i ==> a@[k] == b@[k],
        decreases a.len() - i,
    {
        if a[i] != b[i] {
            return false;
        }
        i += 1;
    }
    assert(a@ =~= b@);
    true
}

/// Copies the bytes from `from` up to, not including, `to`.
pub fn copy_range(src: &Vec<u8>, from: usize, to: usize) -> (out: Vec<u8>)
    requires
        from <= to <= src.len(),
    ensures
        out@ == src@.subrange(from as int, to as int),
{
    let mut out: Vec<u8> = Vec::new();
    let mut i: usize = from;
    while i < to
        invariant
            from <= i <= to <= src.len(),
            out@ == src@.subrange(from as int, i as int),
        decreases to - i,
    {
        out.push(src[i]);
        i += 1;
        assert(out@ =~= src@.subrange(from as int, i as int));
    }
    out
}

/// Copies a byte string.
pub fn copy_bytes(src: &Vec<u8>) -> (out: Vec<u8>)
    ensures
        out@ == src@,
{
    let out = copy_range(src, 0, src.len());
    assert(src@.subrange(0, src.len() as int) =~= src@);
    out
}

/// Puts the ASCII capitals of a byte string into lower case.
pub fn to_lower(src: &Vec<u8>) -> (out: Vec<u8>)
    ensures
        out@ == lower(src@),
{
    let mut out: Vec<u8> = Vec::new();
    let mut i: usize = 0;
    while i < src.len()
        invariant
            i <= src.len(),
            out.len() == i,
            forall|k: int| 0 <= k < i ==> out@[k] == lower_byte(src@[k]),
        decreases src.len() - i,
    {
        let b: u8 = src[i];
        if 65 <= b && b <= 90 {
            out.push(b + 32);
        } else {
            out.push(b);
        }
        i += 1;
    }
    assert(out@ =~= lower(src@));
    out
}

/// Decides whether `needle` stands in `hay` at offset `k`.
pub fn starts_at(hay: &Vec<u8>, needle: &Vec<u8>, k: usize) -> (r: bool)
    ensures
        r == occurs_at(hay@, needle@, k as int),
{
    if k > hay.len() || needle.len() > hay.len() - k {
        return false;
    }
    let mut i: usize = 0;
    while i < needle.len()
        invariant
            i <= needle.len(),
            k + needle.len() <= hay.len(),
            forall|x: int| 0 <= x < i ==> hay@[k + x] == needle@[x],
        decreases needle.len() - i,
    {
        if hay[k + i] != needle[i] {
            assert(hay@.subrange(k as int, k + needle.len())[i as int] == hay@[k + i]);
            return false;
        }
        i += 1;
    }
    assert(hay@.subrange(k as int, k + needle.len()) =~= needle@);
    true
}

/// Decides whether `needle` stands somewhere in `hay`.
pub fn contains_bytes(hay: &Vec<u8>, needle: &Vec<u8>) -> (r: bool)
    ensures
        r == contains(hay@, needle@),
{
    let mut k: usize = 0;
    while k < hay.len()
        invariant
            k <= hay.len(),
            forall|x: int| 0 <= x < k ==> !occurs_at(hay@, needle@, x),
        decreases hay.len() - k,
    {
        if starts_at(hay, needle, k) {
            return true;
        }
        k += 1;
    }
    starts_at(hay, needle, k)
}

/// Substring search that ignores ASCII case.
pub fn contains_ignoring_case(hay: &Vec<u8>, needle: &Vec<u8>) -> (r: bool)
    ensures
        r == contains(lower(hay@), lower(needle@)),
{
    let h = to_lower(hay);
    let n = to_lower(needle);
    contains_bytes(&h, &n)
}

/// Decides whether `item` is one of the entries of `list`.
pub fn is_member(list: &Vec<Vec<u8>>, item: &Vec<u8>) -> (r: bool)
    ensures
        r == has_member(views(list@), item@),
{
    let mut i: usize = 0;
    while i < list.len()
        invariant
            i <= list.len(),
            forall|k: int| 0 <= k < i ==> views(list@)[k] != item@,
        decreases list.len() - i,
    {
        if bytes_eq(&list[i], item) {
            assert(views(list@)[i as int] == item@);
            return true;
        }
        i += 1;
    }
    false
}

/// Finds the first `b` in `src`.
pub fn find_first(src: &Vec<u8>, b: u8) -> (k: usize)
    ensures
        k as int == first_at(src@, b, 0),
        k <= src.len(),
{
    let mut k: usize = 0;
    while k < src.len() && src[k] != b
        invariant
            k <= src.len(),
            first_at(src@, b, 0) == first_at(src@, b, k as int),
        decreases src.len() - k,
    {
        k += 1;
    }
    k
}

/// Copies a list of byte strings.
pub fn copy_list(src: &Vec<Vec<u8>>) -> (out: Vec<Vec<u8>>)
    ensures
        views(out@) == views(src@),
{
    let mut out: Vec<Vec<u8>> = Vec::new();
    let mut i: usize = 0;
    while i < src.len()
        invariant
            i <= src.len(),
            out.len() == i,
            forall|k: int| 0 <= k < i ==> out@[k]@ == src@[k]@,
        decreases src.len() - i,
    {
        out.push(copy_bytes(&src[i]));
        i += 1;
    }
    assert(views(out@) =~= views(src@));
    out
}

/// Cuts `src` at every `sep`.
pub fn split(src: &Vec<u8>, sep: u8) -> (out: Vec<Vec<u8>>)
    ensures
        views(out@) == split_spec(src@, sep),
{
    let mut done: Vec<Vec<u8>> = Vec::new();
    let mut cur: Vec<u8> = Vec::new();
    let mut i: usize = 0;
    while i < src.len()
        invariant
            i <= src.len(),
            views(done@).push(cur@) == split_spec(src@.take(i as int), sep),
        decreases src.len() - i,
    {
        let ghost before = split_spec(src@.take(i as int), sep);
        let b: u8 = src[i];
        proof {
            assert(src@.take(i + 1).drop_last() =~= src@.take(i as int));
            assert(src@.take(i + 1).last() == b);
        }
        if b == sep {
            let ghost old_done = done@;
            done.push(cur);
            cur = Vec::new();
            proof {
                assert(views(done@) =~= views(old_done).push(done@[done.len() - 1]@));
                assert(views(done@).push(cur@) =~= before.push(Seq::<u8>::empty()));
            }
        } else {
            cur.push(b);
            proof {
                assert(views(done@).push(cur@) =~= before.update(
                    before.len() - 1,
                    before.last().push(b),
                ));
            }
        }
        i += 1;
    }
    proof {
        assert(src@.take(src.len() as int) =~= src@);
    }
    let ghost old_done = done@;
    let ghost last = cur@;
    done.push(cur);
    proof {
        assert(views(done@) =~= views(old_done).push(last));
    }
    done
}

} // verus!
