//! Sequence helpers shared by the parsing and serialization modules:
//! spec-level views of nested byte vectors, prefix lemmas for loop
//! invariants, and small executable building blocks on byte vectors.

use vstd::prelude::*;

verus! {

/// The sequence-of-byte-sequences denoted by a vector of byte vectors.
pub open spec fn view2(v: Seq<Vec<u8>>) -> Seq<Seq<u8>> {
    Seq::new(v.len(), |i: int| v[i]@)
}

/// The three-level sequence denoted by a vector of rows of byte vectors.
pub open spec fn view3(v: Seq<Vec<Vec<u8>>>) -> Seq<Seq<Seq<u8>>> {
    Seq::new(v.len(), |i: int| view2(v[i]@))
}

/// The bytes of an ASCII string literal, character by character.
pub open spec fn bytes_of_str(s: &str) -> Seq<u8> {
    Seq::new(s@.len(), |i: int| s@[i] as u8)
}

pub proof fn lemma_view2_push(v: Seq<Vec<u8>>, x: Vec<u8>)
    ensures
        view2(v.push(x)) == view2(v).push(x@),
{
    assert(view2(v.push(x)) =~= view2(v).push(x@));
}

pub proof fn lemma_view3_push(v: Seq<Vec<Vec<u8>>>, x: Vec<Vec<u8>>)
    ensures
        view3(v.push(x)) == view3(v).push(view2(x@)),
{
    assert(view3(v.push(x)) =~= view3(v).push(view2(x@)));
}

/// One step of a left-to-right scan: the prefix of length `i + 1` is the
/// prefix of length `i` extended by the element at `i`.
pub proof fn lemma_prefix_snoc<T>(s: Seq<T>, i: int)
    requires
        0 <= i < s.len(),
    ensures
        s.subrange(0, i + 1).drop_last() == s.subrange(0, i),
        s.subrange(0, i + 1).last() == s[i],
{
    assert(s.subrange(0, i + 1).drop_last() =~= s.subrange(0, i));
}

/// Appends all bytes of `src` to `out`.
pub fn append_bytes(out: &mut Vec<u8>, src: &Vec<u8>)
    ensures
        final(out)@ == old(out)@ + src@,
{
    let mut i: usize = 0;
    while i < src.len()
        invariant
            i <= src.len(),
            out@ == old(out)@ + src@.subrange(0, i as int),
        decreases src.len() - i,
    {
        out.push(src[i]);
        proof {
            assert(old(out)@ + src@.subrange(0, i + 1 as int) =~= (old(out)@ + src@.subrange(
                0,
                i as int,
            )).push(src@[i as int]));
        }
        i = i + 1;
    }
    proof {
        assert(src@.subrange(0, src@.len() as int) =~= src@);
    }
}

/// Whether two byte vectors hold the same bytes.
pub fn bytes_eq(a: &Vec<u8>, b: &Vec<u8>) -> (r: bool)
    ensures
        r == (a@ == b@),
{
    if a.len() != b.len() {
        proof {
            assert(a@ != b@);
        }
        return false;
    }
    let mut i: usize = 0;
    while i < a.len()
        invariant
            i <= a.len(),
            a@.len() == b@.len(),
            forall|j: int| 0 <= j < i ==> a@[j] == b@[j],
        decreases a.len() - i,
    {
        if a[i] != b[i] {
            proof {
                assert(a@ != b@);
            }
            return false;
        }
        i = i + 1;
    }
    proof {
        assert(a@ =~= b@);
    }
    true
}

/// Copies a byte vector.
pub fn copy_bytes(src: &Vec<u8>) -> (r: Vec<u8>)
    ensures
        r@ == src@,
{
    let mut out: Vec<u8> = Vec::new();
    append_bytes(&mut out, src);
    proof {
        assert(Seq::<u8>::empty() + src@ =~= src@);
    }
    out
}

/// Copies a vector of byte vectors.
pub fn copy_cols(src: &Vec<Vec<u8>>) -> (r: Vec<Vec<u8>>)
    ensures
        view2(r@) == view2(src@),
{
    let mut out: Vec<Vec<u8>> = Vec::new();
    let mut i: usize = 0;
    while i < src.len()
        invariant
            i <= src.len(),
            out@.len() == i,
            forall|j: int| 0 <= j < i ==> out@[j]@ == src@[j]@,
        decreases src.len() - i,
    {
        out.push(copy_bytes(&src[i]));
        i = i + 1;
    }
    proof {
        assert(view2(out@) =~= view2(src@));
    }
    out
}

/// The bytes of an ASCII string, as a fresh vector.
pub fn str_bytes(s: &str) -> (r: Vec<u8>)
    requires
        vstd::string::is_ascii(s),
    ensures
        r@ == bytes_of_str(s),
{
    proof {
        vstd::string::is_ascii_spec_bytes(s);
    }
    let b: &[u8] = s.as_bytes();
    vstd::slice::slice_to_vec(b)
}

/// Appends the bytes of an ASCII string to `out`.
pub fn push_text(out: &mut Vec<u8>, s: &str)
    requires
        vstd::string::is_ascii(s),
    ensures
        final(out)@ == old(out)@ + bytes_of_str(s),
{
    let v = str_bytes(s);
    append_bytes(out, &v);
}

} // verus!
