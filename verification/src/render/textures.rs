//! Texture-array layers of the block textures: every distinct texture name
//! but `air`, in byte-wise lexicographic order (the order of a sorted set of
//! names), layer `i` holding the `i`-th; a block face finds its layer by name,
//! falling back to layer 0 for a name with no layer. Loading the images and
//! filling the GPU array are the caller's.

use vstd::prelude::*;

use crate::storage::bytes::copy_range;

verus! {

/// The name that gets no layer.
pub open spec fn air_name() -> Seq<u8> {
    seq![0x61u8, 0x69u8, 0x72u8]
}

/// Byte-wise lexicographic order: a proper prefix comes first.
pub open spec fn lex_lt(a: Seq<u8>, b: Seq<u8>) -> bool
    decreases a.len(),
{
    if a.len() == 0 {
        b.len() > 0
    } else if b.len() == 0 {
        false
    } else if a[0] != b[0] {
        a[0] < b[0]
    } else {
        lex_lt(a.drop_first(), b.drop_first())
    }
}

/// No sequence comes before itself.
pub proof fn lemma_lex_irreflexive(a: Seq<u8>)
    ensures
        !lex_lt(a, a),
    decreases a.len(),
{
    if a.len() > 0 {
        lemma_lex_irreflexive(a.drop_first());
    }
}

/// The order is transitive.
pub proof fn lemma_lex_transitive(a: Seq<u8>, b: Seq<u8>, c: Seq<u8>)
    requires
        lex_lt(a, b),
        lex_lt(b, c),
    ensures
        lex_lt(a, c),
    decreases a.len(),
{
    if a.len() > 0 && b.len() > 0 && c.len() > 0 && a[0] == b[0] && b[0] == c[0] {
        lemma_lex_transitive(a.drop_first(), b.drop_first(), c.drop_first());
    }
}

/// Of two different sequences, one comes first.
pub proof fn lemma_lex_total(a: Seq<u8>, b: Seq<u8>)
    requires
        a != b,
    ensures
        lex_lt(a, b) || lex_lt(b, a),
    decreases a.len(),
{
    if a.len() == 0 && b.len() == 0 {
        assert(a =~= b);
    }
    if a.len() > 0 && b.len() > 0 && a[0] == b[0] {
        if a.drop_first() == b.drop_first() {
            assert(a =~= seq![a[0]] + a.drop_first());
            assert(b =~= seq![b[0]] + b.drop_first());
            assert(false);
        } else {
            lemma_lex_total(a.drop_first(), b.drop_first());
        }
    }
}

/// Sequences that agree on their first `k` bytes compare as their tails do.
proof fn lemma_lex_skip(a: Seq<u8>, b: Seq<u8>, k: int)
    requires
        0 <= k <= a.len(),
        k <= b.len(),
        a.subrange(0, k) == b.subrange(0, k),
    ensures
        lex_lt(a, b) == lex_lt(a.subrange(k, a.len() as int), b.subrange(k, b.len() as int)),
    decreases k,
{
    if k > 0 {
        assert(a[0] == a.subrange(0, k)[0]);
        assert(b[0] == b.subrange(0, k)[0]);
        assert(a.drop_first().subrange(0, k - 1) =~= b.drop_first().subrange(0, k - 1)) by {
            assert forall|i: int| 0 <= i < k - 1 implies #[trigger] a.drop_first().subrange(0, k - 1)[i]
                == b.drop_first().subrange(0, k - 1)[i] by {
                assert(a.subrange(0, k)[i + 1] == a[i + 1]);
                assert(b.subrange(0, k)[i + 1] == b[i + 1]);
                assert(a.drop_first()[i] == a[i + 1]);
                assert(b.drop_first()[i] == b[i + 1]);
            }
        }
        lemma_lex_skip(a.drop_first(), b.drop_first(), k - 1);
        assert(a.drop_first().subrange(k - 1, a.len() - 1) =~= a.subrange(k, a.len() as int));
        assert(b.drop_first().subrange(k - 1, b.len() - 1) =~= b.subrange(k, b.len() as int));
    } else {
        assert(a.subrange(0, a.len() as int) =~= a);
        assert(b.subrange(0, b.len() as int) =~= b);
    }
}

/// Whether `a` comes before `b` byte-wise.
pub fn bytes_lt(a: &[u8], b: &[u8]) -> (r: bool)
    ensures
        r == lex_lt(a@, b@),
{
    let mut k: usize = 0;
    while k < a.len() && k < b.len()
        invariant
            k <= a@.len(),
            k <= b@.len(),
            a@.subrange(0, k as int) == b@.subrange(0, k as int),
        decreases a@.len() - k,
    {
        if a[k] != b[k] {
            proof {
                lemma_lex_skip(a@, b@, k as int);
                let (x, y) = (a@.subrange(k as int, a@.len() as int), b@.subrange(k as int, b@.len() as int));
                assert(x[0] == a@[k as int] && y[0] == b@[k as int]);
            }
            return a[k] < b[k];
        }
        assert(a@.subrange(0, k + 1) =~= b@.subrange(0, k + 1)) by {
            assert forall|i: int| 0 <= i < k + 1 implies a@[i] == b@[i] by {
                if i < k {
                    assert(a@.subrange(0, k as int)[i] == b@.subrange(0, k as int)[i]);
                }
            }
        }
        k = k + 1;
    }
    proof {
        lemma_lex_skip(a@, b@, k as int);
    }
    k == a.len() && k < b.len()
}

/// Whether `a` and `b` hold the same bytes.
pub fn bytes_eq(a: &[u8], b: &[u8]) -> (r: bool)
    ensures
        r == (a@ == b@),
{
    if a.len() != b.len() {
        return false;
    }
    let mut k: usize = 0;
    while k < a.len()
        invariant
            a@.len() == b@.len(),
            k <= a@.len(),
            forall|i: int| 0 <= i < k ==> a@[i] == b@[i],
        decreases a@.len() - k,
    {
        if a[k] != b[k] {
            return false;
        }
        k = k + 1;
    }
    assert(a@ =~= b@);
    true
}

fn is_air(name: &[u8]) -> (r: bool)
    ensures
        r == (name@ == air_name()),
{
    let air: [u8; 3] = [0x61, 0x69, 0x72];
    assert(air@ =~= air_name());
    bytes_eq(name, air.as_slice())
}

/// The layers are in strictly increasing order.
pub open spec fn strictly_sorted(s: Seq<Vec<u8>>) -> bool {
    forall|i: int, j: int| 0 <= i < j < s.len() ==> lex_lt(#[trigger] s[i]@, #[trigger] s[j]@)
}

/// The byte strings held in `s`.
pub open spec fn held(s: Seq<Vec<u8>>) -> Set<Seq<u8>> {
    Set::new(|t: Seq<u8>| exists|i: int| 0 <= i < s.len() && s[i]@ == t)
}

/// The names among the first `n` of `names` that get a layer: all but `air`.
pub open spec fn layered_names(names: Seq<Vec<u8>>, n: int) -> Set<Seq<u8>> {
    Set::new(|t: Seq<u8>| t != air_name() && exists|k: int| 0 <= k < n && names[k]@ == t)
}

/// Insert `name` into the sorted layers unless it is there already.
fn insert_layer(out: &mut Vec<Vec<u8>>, name: &[u8])
    requires
        strictly_sorted(old(out)@),
    ensures
        strictly_sorted(final(out)@),
        held(final(out)@) == held(old(out)@).insert(name@),
{
    let mut p: usize = 0;
    while p < out.len() && bytes_lt(out[p].as_slice(), name)
        invariant
            p <= out@.len(),
            forall|i: int| 0 <= i < p ==> lex_lt(out@[i]@, name@),
        decreases out@.len() - p,
    {
        p = p + 1;
    }
    let ghost before = out@;
    if p < out.len() && bytes_eq(out[p].as_slice(), name) {
        assert(held(before) =~= held(before).insert(name@));
        return;
    }
    let copy = copy_range(name, 0, name.len());
    assert(copy@ =~= name@);
    proof {
        if p < before.len() {
            lemma_lex_total(before[p as int]@, name@);
            assert forall|j: int| p <= j < before.len() implies lex_lt(name@, #[trigger] before[j]@) by {
                if j > p {
                    lemma_lex_transitive(name@, before[p as int]@, before[j]@);
                }
            }
        }
    }
    out.insert(p, copy);
    proof {
        let s = out@;
        assert forall|i: int, j: int| 0 <= i < j < s.len() implies lex_lt(#[trigger] s[i]@, #[trigger] s[j]@) by {
            if j < p {
                assert(s[i] == before[i] && s[j] == before[j]);
            } else if j == p {
                assert(s[i] == before[i]);
            } else if i == p {
                assert(s[j] == before[j - 1]);
            } else if i < p {
                assert(s[i] == before[i] && s[j] == before[j - 1]);
                lemma_lex_transitive(before[i]@, name@, before[j - 1]@);
            } else {
                assert(s[i] == before[i - 1] && s[j] == before[j - 1]);
            }
        }
        assert forall|t: Seq<u8>| held(s).contains(t) <==> held(before).insert(name@).contains(t) by {
            if held(s).contains(t) {
                let i = choose|i: int| 0 <= i < s.len() && s[i]@ == t;
                if i < p {
                    assert(s[i] == before[i]);
                } else if i > p {
                    assert(s[i] == before[i - 1]);
                }
            }
            if held(before).contains(t) {
                let i = choose|i: int| 0 <= i < before.len() && before[i]@ == t;
                if i < p {
                    assert(s[i] == before[i]);
                } else {
                    assert(s[i + 1] == before[i]);
                }
            }
            if t == name@ {
                assert(s[p as int]@ == t);
            }
        }
        assert(held(s) =~= held(before).insert(name@));
    }
}

/// The texture-array layers for the face texture names `names`: each
/// distinct name but `air` once, in byte-wise lexicographic order.
pub fn texture_layers(names: &Vec<Vec<u8>>) -> (r: Vec<Vec<u8>>)
    ensures
        strictly_sorted(r@),
        held(r@) == layered_names(names@, names@.len() as int),
{
    let mut out: Vec<Vec<u8>> = Vec::new();
    let mut k: usize = 0;
    assert(held(out@) =~= layered_names(names@, 0));
    while k < names.len()
        invariant
            k <= names@.len(),
            strictly_sorted(out@),
            held(out@) == layered_names(names@, k as int),
        decreases names@.len() - k,
    {
        let name = names[k].as_slice();
        let ghost prev = layered_names(names@, k as int);
        let ghost next = layered_names(names@, k + 1);
        if !is_air(name) {
            insert_layer(&mut out, name);
            assert forall|t: Seq<u8>| next.contains(t) <==> prev.insert(name@).contains(t) by {
                if next.contains(t) && t != name@ {
                    let m = choose|m: int| 0 <= m < k + 1 && names@[m]@ == t;
                    assert(m < k);
                }
                if t == name@ {
                    assert(names@[k as int]@ == t);
                }
            }
            assert(next =~= prev.insert(name@));
        } else {
            assert forall|t: Seq<u8>| next.contains(t) <==> prev.contains(t) by {
                if next.contains(t) {
                    let m = choose|m: int| 0 <= m < k + 1 && names@[m]@ == t;
                    assert(m < k);
                }
            }
            assert(next =~= prev);
        }
        k = k + 1;
    }
    out
}

/// The layer of texture `name`: its (first) position among `layers`, or 0
/// when it has none (so an unknown name samples the first layer).
pub fn texture_layer_index(layers: &Vec<Vec<u8>>, name: &[u8]) -> (r: u32)
    requires
        layers@.len() <= u32::MAX,
    ensures
        (exists|i: int| 0 <= i < layers@.len() && layers@[i]@ == name@) ==> r < layers@.len()
            && layers@[r as int]@ == name@ && forall|j: int| 0 <= j < r ==> layers@[j]@ != name@,
        !(exists|i: int| 0 <= i < layers@.len() && layers@[i]@ == name@) ==> r == 0,
{
    let mut i: usize = 0;
    while i < layers.len()
        invariant
            i <= layers@.len(),
            layers@.len() <= u32::MAX,
            forall|j: int| 0 <= j < i ==> layers@[j]@ != name@,
        decreases layers@.len() - i,
    {
        if bytes_eq(layers[i].as_slice(), name) {
            return i as u32;
        }
        i = i + 1;
    }
    0
}

} // verus!
