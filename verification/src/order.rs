//! Byte-wise lexicographic ordering of text keys — the order the embedded
//! store's binary collation gives TEXT columns — with a verified comparison,
//! and the multiset fact the sorted reads rely on.

use vstd::prelude::*;
use vstd::utf8::encode_utf8;

verus! {

/// Lexicographic order on byte strings.
pub open spec fn bytes_le(a: Seq<u8>, b: Seq<u8>) -> bool
    decreases a.len(),
{
    if a.len() == 0 {
        true
    } else if b.len() == 0 {
        false
    } else if a[0] == b[0] {
        bytes_le(a.drop_first(), b.drop_first())
    } else {
        a[0] < b[0]
    }
}

/// Strings ordered by the bytes of their UTF-8 encoding, which for UTF-8 is
/// also code-point order.
pub open spec fn str_le(a: Seq<char>, b: Seq<char>) -> bool {
    bytes_le(encode_utf8(a), encode_utf8(b))
}

pub proof fn lemma_bytes_le_refl(a: Seq<u8>)
    ensures
        bytes_le(a, a),
    decreases a.len(),
{
    if a.len() > 0 {
        lemma_bytes_le_refl(a.drop_first());
    }
}

pub proof fn lemma_bytes_le_total(a: Seq<u8>, b: Seq<u8>)
    ensures
        bytes_le(a, b) || bytes_le(b, a),
    decreases a.len(),
{
    if a.len() > 0 && b.len() > 0 && a[0] == b[0] {
        lemma_bytes_le_total(a.drop_first(), b.drop_first());
    }
}

pub proof fn lemma_bytes_le_antisym(a: Seq<u8>, b: Seq<u8>)
    requires
        bytes_le(a, b),
        bytes_le(b, a),
    ensures
        a == b,
    decreases a.len(),
{
    if a.len() == 0 {
        assert(b.len() == 0);
        assert(a =~= b);
    } else {
        assert(b.len() > 0);
        if a[0] != b[0] {
            assert(a[0] < b[0]);
            assert(b[0] < a[0]);
        }
        assert(a[0] == b[0]);
        lemma_bytes_le_antisym(a.drop_first(), b.drop_first());
        assert(a.drop_first() == b.drop_first());
        assert(a.len() == b.len());
        assert forall|i: int| 0 <= i < a.len() implies a[i] == b[i] by {
            if i > 0 {
                assert(a[i] == a.drop_first()[i - 1]);
                assert(b[i] == b.drop_first()[i - 1]);
            }
        }
        assert(a =~= b);
    }
}

pub proof fn lemma_bytes_le_trans(a: Seq<u8>, b: Seq<u8>, c: Seq<u8>)
    requires
        bytes_le(a, b),
        bytes_le(b, c),
    ensures
        bytes_le(a, c),
    decreases a.len(),
{
    if a.len() > 0 {
        assert(b.len() > 0);
        assert(c.len() > 0);
        if a[0] == b[0] && b[0] == c[0] {
            lemma_bytes_le_trans(a.drop_first(), b.drop_first(), c.drop_first());
        }
    }
}

/// Compare two byte strings, exactly as the specification orders them.
pub fn bytes_le_exec(a: &[u8], b: &[u8]) -> (r: bool)
    ensures
        r == bytes_le(a@, b@),
{
    let mut i: usize = 0;
    proof {
        assert(a@.skip(0) =~= a@);
        assert(b@.skip(0) =~= b@);
    }
    while i < a.len() && i < b.len() && a[i] == b[i]
        invariant
            i <= a@.len(),
            i <= b@.len(),
            bytes_le(a@, b@) == bytes_le(a@.skip(i as int), b@.skip(i as int)),
        decreases a@.len() - i,
    {
        proof {
            assert(a@.skip(i as int)[0] == a@[i as int]);
            assert(b@.skip(i as int)[0] == b@[i as int]);
            assert(a@.skip(i as int).drop_first() =~= a@.skip(i + 1));
            assert(b@.skip(i as int).drop_first() =~= b@.skip(i + 1));
        }
        i = i + 1;
    }
    if i >= a.len() {
        proof {
            assert(a@.skip(i as int).len() == 0);
        }
        true
    } else if i >= b.len() {
        proof {
            assert(b@.skip(i as int).len() == 0);
            assert(a@.skip(i as int).len() > 0);
        }
        false
    } else {
        proof {
            assert(a@.skip(i as int)[0] == a@[i as int]);
            assert(b@.skip(i as int)[0] == b@[i as int]);
        }
        a[i] < b[i]
    }
}

/// Compare two strings by their UTF-8 bytes.
pub fn str_le_exec(a: &str, b: &str) -> (r: bool)
    ensures
        r == str_le(a@, b@),
{
    bytes_le_exec(a.as_bytes(), b.as_bytes())
}

/// An insertion at the scan position of a sorted sequence keeps it sorted,
/// for any total, transitive order.
pub proof fn lemma_sorted_insert<T>(pre: Seq<T>, pos: int, x: T, le: spec_fn(T, T) -> bool)
    requires
        0 <= pos <= pre.len(),
        forall|k1: int, k2: int| 0 <= k1 < k2 < pre.len() ==> le(pre[k1], pre[k2]),
        forall|k: int| 0 <= k < pos ==> le(pre[k], x),
        pos < pre.len() ==> !le(pre[pos], x),
        forall|p: T, q: T| #[trigger] le(p, q) || le(q, p),
        forall|p: T, q: T, s: T| #![trigger le(p, q), le(q, s)] le(p, q) && le(q, s) ==> le(p, s),
    ensures
        forall|k1: int, k2: int|
            0 <= k1 < k2 < pre.insert(pos, x).len() ==> le(
                pre.insert(pos, x)[k1],
                pre.insert(pos, x)[k2],
            ),
{
    let ins = pre.insert(pos, x);
    assert forall|k1: int, k2: int| 0 <= k1 < k2 < ins.len() implies le(ins[k1], ins[k2]) by {
        if k2 < pos {
            assert(le(pre[k1], pre[k2]));
        } else if k1 > pos {
            assert(le(pre[k1 - 1], pre[k2 - 1]));
        } else if k1 < pos && k2 == pos {
            assert(le(pre[k1], x));
        } else if k1 == pos && k2 > pos {
            assert(pos < pre.len());
            assert(le(x, pre[pos]));
            if k2 - 1 > pos {
                assert(le(pre[pos], pre[k2 - 1]));
                assert(le(x, pre[k2 - 1]));
            }
        } else {
            assert(le(pre[k1], pre[k2 - 1]));
        }
    }
}

/// Inserting anywhere adds one occurrence to a sequence's multiset.
pub proof fn lemma_insert_to_multiset<T>(s: Seq<T>, pos: int, x: T)
    requires
        0 <= pos <= s.len(),
    ensures
        s.insert(pos, x).to_multiset() == s.to_multiset().insert(x),
{
    broadcast use vstd::seq_lib::group_to_multiset_ensures;

    let ins = s.insert(pos, x);
    assert(ins.remove(pos) =~= s);
    assert(ins[pos] == x);
    assert(ins.contains(x));
    assert(ins.remove(pos).to_multiset() =~= ins.to_multiset().remove(ins[pos]));
    assert(ins.to_multiset() =~= s.to_multiset().insert(x));
}

} // verus!
