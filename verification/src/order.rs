//! The order of keys.
//!
//! Keys are strings, and they are ordered the way Rust orders strings: by
//! comparing their UTF-8 encodings byte by byte. Everything that is kept
//! "by key" in this crate (counters, labels, rules, the maps inside an
//! event) is kept in this order, and the text written at teardown lists map
//! entries in it.
use vstd::prelude::*;
use vstd::utf8::*;

verus! {

/// Lexicographic "strictly less" on byte strings.
pub open spec fn bytes_lt(a: Seq<u8>, b: Seq<u8>) -> bool
    decreases a.len(),
{
    if b.len() == 0 {
        false
    } else if a.len() == 0 {
        true
    } else if a[0] != b[0] {
        a[0] < b[0]
    } else {
        bytes_lt(a.drop_first(), b.drop_first())
    }
}

/// `a` comes strictly before `b` in key order.
pub open spec fn key_lt(a: Seq<char>, b: Seq<char>) -> bool {
    bytes_lt(encode_utf8(a), encode_utf8(b))
}

/// `a` comes before `b` in key order, or is `b`.
pub open spec fn key_le(a: Seq<char>, b: Seq<char>) -> bool {
    a == b || key_lt(a, b)
}

/// Every element comes strictly before all later ones.
pub open spec fn ascending(keys: Seq<Seq<char>>) -> bool {
    forall|i: int, j: int| 0 <= i < j < keys.len() ==> key_lt(#[trigger] keys[i], #[trigger] keys[j])
}

/// `k` is an element of `keys` that no other element precedes.
pub open spec fn is_least(keys: Set<Seq<char>>, k: Seq<char>) -> bool {
    keys.contains(k) && forall|other: Seq<char>| keys.contains(other) ==> key_le(k, other)
}

/// The least element of a set of keys (arbitrary if the set has none).
pub open spec fn least(keys: Set<Seq<char>>) -> Seq<char> {
    choose|k: Seq<char>| is_least(keys, k)
}

/// The elements of a finite set of keys, listed in key order.
pub open spec fn in_order(keys: Set<Seq<char>>) -> Seq<Seq<char>>
    decreases keys.len(),
    via in_order_decreases
{
    if keys.finite() && keys.len() > 0 && keys.contains(least(keys)) {
        seq![least(keys)] + in_order(keys.remove(least(keys)))
    } else {
        Seq::empty()
    }
}

#[via_fn]
proof fn in_order_decreases(keys: Set<Seq<char>>) {
}

/// How one key stands to another.
#[derive(Clone, Copy, Debug, PartialEq, Eq, Structural)]
pub enum Rank {
    Before,
    Same,
    After,
}

/// What `rank` returns for two keys.
pub open spec fn rank_of(a: Seq<char>, b: Seq<char>) -> Rank {
    if a == b {
        Rank::Same
    } else if key_lt(a, b) {
        Rank::Before
    } else {
        Rank::After
    }
}

pub proof fn lemma_bytes_lt_irreflexive(a: Seq<u8>)
    ensures
        !bytes_lt(a, a),
    decreases a.len(),
{
    if a.len() > 0 {
        lemma_bytes_lt_irreflexive(a.drop_first());
    }
}

pub proof fn lemma_bytes_lt_transitive(a: Seq<u8>, b: Seq<u8>, c: Seq<u8>)
    requires
        bytes_lt(a, b),
        bytes_lt(b, c),
    ensures
        bytes_lt(a, c),
    decreases a.len(),
{
    if a.len() > 0 && a[0] == b[0] && b[0] == c[0] {
        lemma_bytes_lt_transitive(a.drop_first(), b.drop_first(), c.drop_first());
    }
}

pub proof fn lemma_bytes_lt_total(a: Seq<u8>, b: Seq<u8>)
    ensures
        bytes_lt(a, b) || a == b || bytes_lt(b, a),
    decreases a.len(),
{
    if a.len() == 0 || b.len() == 0 {
        if a.len() == 0 && b.len() == 0 {
            assert(a =~= b);
        }
    } else if a[0] == b[0] {
        lemma_bytes_lt_total(a.drop_first(), b.drop_first());
        if a.drop_first() == b.drop_first() {
            assert(a =~= seq![a[0]] + a.drop_first());
            assert(b =~= seq![b[0]] + b.drop_first());
        }
    }
}

/// Two byte strings that agree on their first `n` bytes compare as what
/// follows those bytes.
pub proof fn lemma_bytes_lt_after_common_prefix(a: Seq<u8>, b: Seq<u8>, n: int)
    requires
        0 <= n <= a.len(),
        n <= b.len(),
        forall|j: int| 0 <= j < n ==> a[j] == b[j],
    ensures
        bytes_lt(a, b) == bytes_lt(a.skip(n), b.skip(n)),
        (a == b) == (a.skip(n) == b.skip(n)),
    decreases n,
{
    if n == 0 {
        assert(a.skip(0) =~= a);
        assert(b.skip(0) =~= b);
    } else {
        let a1 = a.drop_first();
        let b1 = b.drop_first();
        assert forall|j: int| 0 <= j < n - 1 implies a1[j] == b1[j] by {
            assert(a1[j] == a[j + 1]);
            assert(b1[j] == b[j + 1]);
        }
        lemma_bytes_lt_after_common_prefix(a1, b1, n - 1);
        assert(a1.skip(n - 1) =~= a.skip(n));
        assert(b1.skip(n - 1) =~= b.skip(n));
        if a1 == b1 {
            assert(a =~= seq![a[0]] + a1);
            assert(b =~= seq![b[0]] + b1);
        }
    }
}

/// Different keys have different encodings.
pub proof fn lemma_encoding_injective(a: Seq<char>, b: Seq<char>)
    requires
        encode_utf8(a) == encode_utf8(b),
    ensures
        a == b,
{
    encode_utf8_decode_utf8(a);
    encode_utf8_decode_utf8(b);
}

/// Key order is a strict total order: no key precedes itself, of two
/// different keys exactly one precedes the other, and precedence carries
/// over a key in between.
pub proof fn lemma_key_order(a: Seq<char>, b: Seq<char>, c: Seq<char>)
    ensures
        !key_lt(a, a),
        key_lt(a, b) || a == b || key_lt(b, a),
        !(key_lt(a, b) && key_lt(b, a)),
        key_lt(a, b) && key_lt(b, c) ==> key_lt(a, c),
{
    let ea = encode_utf8(a);
    let eb = encode_utf8(b);
    let ec = encode_utf8(c);
    lemma_bytes_lt_irreflexive(ea);
    lemma_bytes_lt_total(ea, eb);
    if ea == eb {
        lemma_encoding_injective(a, b);
    }
    if bytes_lt(ea, eb) && bytes_lt(eb, ea) {
        lemma_bytes_lt_transitive(ea, eb, ea);
    }
    if bytes_lt(ea, eb) && bytes_lt(eb, ec) {
        lemma_bytes_lt_transitive(ea, eb, ec);
    }
}

/// An ascending sequence holds no key twice.
pub proof fn lemma_ascending_no_duplicates(keys: Seq<Seq<char>>)
    requires
        ascending(keys),
    ensures
        keys.no_duplicates(),
{
    assert forall|i: int, j: int| 0 <= i < keys.len() && 0 <= j < keys.len() && i != j implies keys[i]
        != keys[j] by {
        lemma_key_order(keys[i], keys[j], keys[i]);
    }
}

/// An ascending sequence is the listing in key order of the set of its
/// elements: there is one way only to write a set of keys down in order.
pub proof fn lemma_ascending_is_in_order(keys: Seq<Seq<char>>)
    requires
        ascending(keys),
    ensures
        in_order(keys.to_set()) == keys,
    decreases keys.len(),
{
    let set = keys.to_set();
    lemma_ascending_no_duplicates(keys);
    keys.unique_seq_to_set();
    if keys.len() == 0 {
        assert(in_order(set) =~= keys);
    } else {
        let first = keys[0];
        let rest = keys.drop_first();
        assert(set.contains(first));
        assert forall|other: Seq<char>| set.contains(other) implies key_le(first, other) by {
            let j = choose|j: int| 0 <= j < keys.len() && keys[j] == other;
            if j > 0 {
                assert(key_lt(keys[0], keys[j]));
            }
        }
        assert(is_least(set, first));
        let m = least(set);
        assert(is_least(set, m));
        lemma_key_order(first, m, first);
        assert(m == first);
        assert(ascending(rest)) by {
            assert forall|i: int, j: int| 0 <= i < j < rest.len() implies key_lt(
                #[trigger] rest[i],
                #[trigger] rest[j],
            ) by {
                assert(key_lt(keys[i + 1], keys[j + 1]));
            }
        }
        assert(set.remove(first) =~= rest.to_set()) by {
            assert forall|k: Seq<char>| set.remove(first).contains(k) implies rest.to_set().contains(
                k,
            ) by {
                let j = choose|j: int| 0 <= j < keys.len() && keys[j] == k;
                assert(j > 0);
                assert(rest[j - 1] == k);
            }
            assert forall|k: Seq<char>| rest.to_set().contains(k) implies set.remove(first).contains(
                k,
            ) by {
                let j = choose|j: int| 0 <= j < rest.len() && rest[j] == k;
                assert(keys[j + 1] == k);
                assert(key_lt(keys[0], keys[j + 1]));
                lemma_key_order(first, k, first);
            }
        }
        lemma_ascending_is_in_order(rest);
        assert(in_order(set) =~= seq![first] + rest);
        assert(seq![first] + rest =~= keys);
    }
}

/// A finite set of keys that is not empty has a least element.
pub proof fn lemma_least_exists(keys: Set<Seq<char>>)
    requires
        keys.finite(),
        keys.len() > 0,
    ensures
        is_least(keys, least(keys)),
    decreases keys.len(),
{
    let x = keys.choose();
    let rest = keys.remove(x);
    if rest.len() == 0 {
        assert forall|other: Seq<char>| keys.contains(other) implies key_le(x, other) by {
            if other != x {
                assert(rest.contains(other));
            }
        }
        assert(is_least(keys, x));
    } else {
        lemma_least_exists(rest);
        let m = least(rest);
        lemma_key_order(x, m, x);
        let c = if key_lt(x, m) {
            x
        } else {
            m
        };
        assert forall|other: Seq<char>| keys.contains(other) implies key_le(c, other) by {
            if other != x {
                assert(rest.contains(other));
                lemma_key_order(x, m, other);
            }
        }
        assert(is_least(keys, c));
    }
}

/// The listing in key order of a finite set holds exactly the set's
/// elements, each once, in ascending order.
pub proof fn lemma_in_order(keys: Set<Seq<char>>)
    requires
        keys.finite(),
    ensures
        ascending(in_order(keys)),
        in_order(keys).to_set() == keys,
        in_order(keys).len() == keys.len(),
        in_order(keys).no_duplicates(),
    decreases keys.len(),
{
    if keys.len() == 0 {
        assert(in_order(keys).to_set() =~= keys);
    } else {
        lemma_least_exists(keys);
        let m = least(keys);
        let rest = keys.remove(m);
        lemma_in_order(rest);
        let tail = in_order(rest);
        let all = in_order(keys);
        assert(all =~= seq![m] + tail);
        assert forall|i: int, j: int| 0 <= i < j < all.len() implies key_lt(
            #[trigger] all[i],
            #[trigger] all[j],
        ) by {
            if i == 0 {
                assert(tail.to_set().contains(tail[j - 1]));
                assert(keys.contains(all[j]));
            } else {
                assert(key_lt(tail[i - 1], tail[j - 1]));
            }
        }
        assert(all.to_set() =~= keys) by {
            assert forall|k: Seq<char>| all.to_set().contains(k) implies keys.contains(k) by {
                let j = choose|j: int| 0 <= j < all.len() && all[j] == k;
                if j > 0 {
                    assert(tail.to_set().contains(tail[j - 1]));
                }
            }
            assert forall|k: Seq<char>| keys.contains(k) implies all.to_set().contains(k) by {
                if k == m {
                    assert(all[0] == k);
                } else {
                    assert(tail.to_set().contains(k));
                    let j = choose|j: int| 0 <= j < tail.len() && tail[j] == k;
                    assert(all[j + 1] == k);
                }
            }
        }
        lemma_ascending_no_duplicates(all);
    }
}

/// The first `n + 1` elements of a sequence are its first `n` elements and
/// the element at `n`.
pub proof fn lemma_take_next<T>(s: Seq<T>, n: int)
    requires
        0 <= n < s.len(),
    ensures
        s.take(n + 1) == s.take(n).push(s[n]),
        s.take(n + 1).drop_last() == s.take(n),
        s.take(n + 1).last() == s[n],
        forall|x: T| s.take(n + 1).contains(x) == (s.take(n).contains(x) || x == s[n]),
{
    let a = s.take(n);
    let b = s.take(n + 1);
    assert(b =~= a.push(s[n]));
    assert(b.drop_last() =~= a);
    assert forall|x: T| b.contains(x) == (a.contains(x) || x == s[n]) by {
        if b.contains(x) {
            let j = choose|j: int| 0 <= j < b.len() && b[j] == x;
            if j < n {
                assert(a[j] == x);
            }
        }
        if a.contains(x) {
            let j = choose|j: int| 0 <= j < a.len() && a[j] == x;
            assert(b[j] == x);
        }
        if x == s[n] {
            assert(b[n] == x);
        }
    }
}

/// Compares two keys.
pub fn rank(a: &str, b: &str) -> (r: Rank)
    ensures
        r == rank_of(a@, b@),
{
    let x = a.as_bytes();
    let y = b.as_bytes();
    let mut i: usize = 0;
    while i < x.len() && i < y.len()
        invariant
            i <= x@.len(),
            i <= y@.len(),
            x@ == encode_utf8(a@),
            y@ == encode_utf8(b@),
            forall|j: int| 0 <= j < i ==> x@[j] == y@[j],
        decreases x@.len() - i,
    {
        if x[i] != y[i] {
            proof {
                lemma_bytes_lt_after_common_prefix(x@, y@, i as int);
                if a@ == b@ {
                    assert(x@ == y@);
                }
            }
            return if x[i] < y[i] {
                Rank::Before
            } else {
                Rank::After
            };
        }
        i += 1;
    }
    proof {
        lemma_bytes_lt_after_common_prefix(x@, y@, i as int);
        if x@.len() == y@.len() {
            assert(x@.skip(i as int) =~= y@.skip(i as int));
            lemma_encoding_injective(a@, b@);
        }
        lemma_bytes_lt_irreflexive(x@);
    }
    if x.len() < y.len() {
        Rank::Before
    } else if x.len() == y.len() {
        Rank::Same
    } else {
        Rank::After
    }
}

/// Whether two keys are the same.
pub fn same_key(a: &str, b: &str) -> (r: bool)
    ensures
        r == (a@ == b@),
{
    match rank(a, b) {
        Rank::Same => true,
        _ => false,
    }
}

} // verus!
