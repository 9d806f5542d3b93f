//! Prefixes of a text by the bytes of its encoding.

use vstd::prelude::*;

use crate::text::chars::{chars_of, string_of};

verus! {

/// The number of bytes that encode the character in UTF-8.
pub open spec fn encoded_len(c: char) -> nat {
    if (c as u32) < 0x80 {
        1
    } else if (c as u32) < 0x800 {
        2
    } else if (c as u32) < 0x10000 {
        3
    } else {
        4
    }
}

/// The number of bytes that encode the text in UTF-8.
pub open spec fn encoded_size(s: Seq<char>) -> nat
    decreases s.len(),
{
    if s.len() == 0 {
        0
    } else {
        encoded_size(s.drop_last()) + encoded_len(s.last())
    }
}

/// Whether the first `k` characters take `n` bytes.
pub open spec fn splits_at(s: Seq<char>, k: int, n: nat) -> bool {
    0 <= k <= s.len() && encoded_size(s.take(k)) == n
}

/// The characters that take the first `n` bytes, or all of the text where it
/// has no such beginning.
pub open spec fn first_bytes(s: Seq<char>, n: nat) -> Seq<char> {
    if exists|k: int| splits_at(s, k, n) {
        s.take(choose|k: int| splits_at(s, k, n))
    } else {
        s
    }
}

/// A longer beginning takes more bytes.
proof fn lemma_sizes_grow(s: Seq<char>, i: int, j: int)
    requires
        0 <= i < j <= s.len(),
    ensures
        encoded_size(s.take(i)) < encoded_size(s.take(j)),
    decreases j - i,
{
    assert(s.take(j).drop_last() =~= s.take(j - 1));
    if i < j - 1 {
        lemma_sizes_grow(s, i, j - 1);
    }
}

/// The beginning that takes `n` bytes is unique.
proof fn lemma_first_bytes(s: Seq<char>, k: int, n: nat)
    requires
        splits_at(s, k, n),
    ensures
        first_bytes(s, n) == s.take(k),
{
    let c = choose|c: int| splits_at(s, c, n);
    assert(splits_at(s, c, n));
    if c < k {
        lemma_sizes_grow(s, c, k);
    } else if k < c {
        lemma_sizes_grow(s, k, c);
    }
}

/// The characters that take the first `n` bytes, or all of the text where it
/// has no such beginning.
pub fn head_bytes(s: &str, n: usize) -> (r: String)
    ensures
        r@ == first_bytes(s@, n as nat),
{
    let a: Vec<char> = chars_of(s);
    let mut size: usize = 0;
    let mut i: usize = 0;
    assert(s@.take(0) =~= Seq::empty());
    while i < a.len() && size < n
        invariant
            a@ == s@,
            i <= a@.len(),
            size <= n,
            size == encoded_size(s@.take(i as int)),
            forall|k: int| 0 <= k < i ==> encoded_size(#[trigger] s@.take(k)) < n,
        decreases a@.len() - i,
    {
        proof {
            assert(s@.take(i + 1).drop_last() =~= s@.take(i as int));
            assert(s@.take(i + 1).last() == a@[i as int]);
        }
        let c: char = a[i];
        let code: u32 = c as u32;
        let left: usize = n - size;
        let more: usize = if code < 0x80 {
            1
        } else if code < 0x800 {
            2
        } else if code < 0x10000 {
            3
        } else {
            4
        };
        if more > left {
            proof {
                assert forall|k: int| !splits_at(s@, k, n as nat) by {
                    if splits_at(s@, k, n as nat) {
                        if k <= i {
                            assert(encoded_size(s@.take(k)) < n);
                        } else if k == i + 1 {
                        } else {
                            lemma_sizes_grow(s@, i + 1, k);
                        }
                    }
                }
            }
            assert(s@.subrange(0, a@.len() as int) =~= s@);
            return string_of(&a, 0, a.len());
        }
        size = size + more;
        i = i + 1;
    }
    if size == n {
        proof {
            assert(splits_at(s@, i as int, n as nat));
            lemma_first_bytes(s@, i as int, n as nat);
            assert(s@.subrange(0, i as int) =~= s@.take(i as int));
        }
        return string_of(&a, 0, i);
    }
    proof {
        assert(i == a@.len());
        assert forall|k: int| !splits_at(s@, k, n as nat) by {
            if splits_at(s@, k, n as nat) {
                if k < i {
                    assert(encoded_size(s@.take(k)) < n);
                }
            }
        }
    }
    assert(s@.subrange(0, a@.len() as int) =~= s@);
    string_of(&a, 0, a.len())
}

} // verus!
