//! Ordering of names by their UTF-8 bytes, the order in which `String`s sort.

use vstd::prelude::*;
use vstd::utf8::*;

verus! {

/// Strict lexicographic order on byte sequences.
pub open spec fn bytes_lt(a: Seq<u8>, b: Seq<u8>) -> bool
    decreases a.len(),
{
    if a.len() == 0 {
        b.len() > 0
    } else if b.len() == 0 {
        false
    } else if a[0] != b[0] {
        a[0] < b[0]
    } else {
        bytes_lt(a.drop_first(), b.drop_first())
    }
}

/// Strict order on names: the order of their UTF-8 encodings.
pub open spec fn name_lt(a: Seq<char>, b: Seq<char>) -> bool {
    bytes_lt(encode_utf8(a), encode_utf8(b))
}

/// The views of a sequence of strings.
pub open spec fn names_of(v: Seq<String>) -> Seq<Seq<char>> {
    v.map_values(|s: String| s@)
}

/// Names in strictly increasing order, hence without duplicates.
pub open spec fn sorted(s: Seq<Seq<char>>) -> bool {
    forall|i: int, j: int| 0 <= i < j < s.len() ==> name_lt(#[trigger] s[i], #[trigger] s[j])
}

pub proof fn lemma_bytes_lt_irreflexive(a: Seq<u8>)
    ensures
        !bytes_lt(a, a),
    decreases a.len(),
{
    if a.len() > 0 {
        lemma_bytes_lt_irreflexive(a.drop_first());
    }
}

pub proof fn lemma_bytes_lt_transitive(a: Seq<u8>, b: Seq<u8>, c: Seq<u8>)
    requires
        bytes_lt(a, b),
        bytes_lt(b, c),
    ensures
        bytes_lt(a, c),
    decreases a.len(),
{
    if a.len() > 0 && b.len() > 0 && c.len() > 0 && a[0] == b[0] && b[0] == c[0] {
        lemma_bytes_lt_transitive(a.drop_first(), b.drop_first(), c.drop_first());
    }
}

pub proof fn lemma_bytes_lt_total(a: Seq<u8>, b: Seq<u8>)
    ensures
        a == b || bytes_lt(a, b) || bytes_lt(b, a),
    decreases a.len(),
{
    if a.len() > 0 && b.len() > 0 && a[0] == b[0] {
        lemma_bytes_lt_total(a.drop_first(), b.drop_first());
        if a.drop_first() == b.drop_first() {
            assert(a =~= seq![a[0]] + a.drop_first());
            assert(b =~= seq![b[0]] + b.drop_first());
        }
    } else if a.len() == 0 && b.len() == 0 {
        assert(a =~= b);
    }
}

pub proof fn lemma_bytes_lt_asymmetric(a: Seq<u8>, b: Seq<u8>)
    ensures
        bytes_lt(a, b) ==> !bytes_lt(b, a),
{
    if bytes_lt(a, b) && bytes_lt(b, a) {
        lemma_bytes_lt_transitive(a, b, a);
        lemma_bytes_lt_irreflexive(a);
    }
}

proof fn lemma_bytes_lt_skip(a: Seq<u8>, b: Seq<u8>, i: int)
    requires
        0 <= i <= a.len(),
        i <= b.len(),
        a.subrange(0, i) == b.subrange(0, i),
    ensures
        bytes_lt(a, b) == bytes_lt(a.subrange(i, a.len() as int), b.subrange(i, b.len() as int)),
    decreases i,
{
    if i > 0 {
        assert(a[0] == a.subrange(0, i)[0]);
        assert(b[0] == b.subrange(0, i)[0]);
        assert(a.drop_first().subrange(0, i - 1) =~= a.subrange(0, i).drop_first());
        assert(b.drop_first().subrange(0, i - 1) =~= b.subrange(0, i).drop_first());
        lemma_bytes_lt_skip(a.drop_first(), b.drop_first(), i - 1);
        assert(a.drop_first().subrange(i - 1, a.len() - 1) =~= a.subrange(i, a.len() as int));
        assert(b.drop_first().subrange(i - 1, b.len() - 1) =~= b.subrange(i, b.len() as int));
    } else {
        assert(a.subrange(0, a.len() as int) =~= a);
        assert(b.subrange(0, b.len() as int) =~= b);
    }
}

pub proof fn lemma_name_lt_irreflexive(a: Seq<char>)
    ensures
        !name_lt(a, a),
{
    lemma_bytes_lt_irreflexive(encode_utf8(a));
}

pub proof fn lemma_name_lt_transitive(a: Seq<char>, b: Seq<char>, c: Seq<char>)
    requires
        name_lt(a, b),
        name_lt(b, c),
    ensures
        name_lt(a, c),
{
    lemma_bytes_lt_transitive(encode_utf8(a), encode_utf8(b), encode_utf8(c));
}

pub proof fn lemma_name_lt_total(a: Seq<char>, b: Seq<char>)
    ensures
        a == b || name_lt(a, b) || name_lt(b, a),
{
    lemma_bytes_lt_total(encode_utf8(a), encode_utf8(b));
    if encode_utf8(a) == encode_utf8(b) {
        encode_utf8_decode_utf8(a);
        encode_utf8_decode_utf8(b);
    }
}

pub proof fn lemma_name_lt_asymmetric(a: Seq<char>, b: Seq<char>)
    ensures
        name_lt(a, b) ==> !name_lt(b, a),
{
    lemma_bytes_lt_asymmetric(encode_utf8(a), encode_utf8(b));
}

/// Result of comparing two names.
pub enum Cmp {
    Less,
    Equal,
    Greater,
}

/// Compares two names by their UTF-8 bytes.
pub fn compare_names(a: &str, b: &str) -> (r: Cmp)
    ensures
        r is Less <==> name_lt(a@, b@),
        r is Equal <==> a@ == b@,
        r is Greater <==> name_lt(b@, a@),
{
    let x = a.as_bytes();
    let y = b.as_bytes();
    let ghost ea = encode_utf8(a@);
    let ghost eb = encode_utf8(b@);
    let mut i: usize = 0;
    while i < x.len() && i < y.len()
        invariant
            ea == encode_utf8(a@),
            eb == encode_utf8(b@),
            x@ == ea,
            y@ == eb,
            i <= x@.len(),
            i <= y@.len(),
            ea.subrange(0, i as int) == eb.subrange(0, i as int),
        decreases x@.len() - i,
    {
        if x[i] != y[i] {
            proof {
                lemma_bytes_lt_skip(ea, eb, i as int);
                lemma_bytes_lt_skip(eb, ea, i as int);
                let sa = ea.subrange(i as int, ea.len() as int);
                let sb = eb.subrange(i as int, eb.len() as int);
                assert(sa[0] == ea[i as int]);
                assert(sb[0] == eb[i as int]);
                assert(ea != eb);
            }
            proof {
                lemma_name_lt_asymmetric(a@, b@);
                lemma_name_lt_asymmetric(b@, a@);
                lemma_name_lt_irreflexive(a@);
            }
            if x[i] < y[i] {
                return Cmp::Less;
            } else {
                return Cmp::Greater;
            }
        }
        proof {
            assert(ea.subrange(0, i + 1) =~= ea.subrange(0, i as int).push(ea[i as int]));
            assert(eb.subrange(0, i + 1) =~= eb.subrange(0, i as int).push(eb[i as int]));
        }
        i = i + 1;
    }
    proof {
        lemma_bytes_lt_skip(ea, eb, i as int);
        lemma_bytes_lt_skip(eb, ea, i as int);
        lemma_name_lt_irreflexive(a@);
        lemma_name_lt_total(a@, b@);
        lemma_name_lt_asymmetric(a@, b@);
        lemma_name_lt_asymmetric(b@, a@);
    }
    let ghost sa = ea.subrange(i as int, ea.len() as int);
    let ghost sb = eb.subrange(i as int, eb.len() as int);
    if x.len() < y.len() {
        assert(sa.len() == 0 && sb.len() > 0);
        assert(bytes_lt(sa, sb));
        assert(ea != eb);
        Cmp::Less
    } else if y.len() < x.len() {
        assert(sb.len() == 0 && sa.len() > 0);
        assert(bytes_lt(sb, sa));
        assert(ea != eb);
        Cmp::Greater
    } else {
        proof {
            assert(ea =~= ea.subrange(0, i as int));
            assert(eb =~= eb.subrange(0, i as int));
            encode_utf8_decode_utf8(a@);
            encode_utf8_decode_utf8(b@);
        }
        Cmp::Equal
    }
}

/// Whether `k` can stand at index `i` of `s` with the order kept.
pub open spec fn fits_at(s: Seq<Seq<char>>, i: int, k: Seq<char>) -> bool {
    &&& 0 <= i <= s.len()
    &&& forall|j: int| 0 <= j < i ==> name_lt(#[trigger] s[j], k)
    &&& forall|j: int| i <= j < s.len() ==> name_lt(k, #[trigger] s[j])
}

pub proof fn lemma_sorted_insert(s: Seq<Seq<char>>, i: int, k: Seq<char>)
    requires
        sorted(s),
        fits_at(s, i, k),
    ensures
        sorted(s.insert(i, k)),
{
}

pub proof fn lemma_sorted_remove(s: Seq<Seq<char>>, i: int)
    requires
        sorted(s),
        0 <= i < s.len(),
    ensures
        sorted(s.remove(i)),
{
    let t = s.remove(i);
    assert forall|a: int, b: int| 0 <= a < b < t.len() implies name_lt(#[trigger] t[a], #[trigger] t[b]) by {
        let a2 = if a < i { a } else { a + 1 };
        let b2 = if b < i { b } else { b + 1 };
        assert(t[a] == s[a2] && t[b] == s[b2]);
    }
}

pub proof fn lemma_names_of_insert(v: Seq<String>, i: int, x: String)
    requires
        0 <= i <= v.len(),
    ensures
        names_of(v.insert(i, x)) == names_of(v).insert(i, x@),
{
    assert(names_of(v.insert(i, x)) =~= names_of(v).insert(i, x@));
}

pub proof fn lemma_names_of_remove(v: Seq<String>, i: int)
    requires
        0 <= i < v.len(),
    ensures
        names_of(v.remove(i)) == names_of(v).remove(i),
{
    assert(names_of(v.remove(i)) =~= names_of(v).remove(i));
}

pub proof fn lemma_names_of_push(v: Seq<String>, x: String)
    ensures
        names_of(v.push(x)) == names_of(v).push(x@),
{
    assert(names_of(v.push(x)) =~= names_of(v).push(x@));
}

pub proof fn lemma_insert_to_set(s: Seq<Seq<char>>, i: int, k: Seq<char>)
    requires
        0 <= i <= s.len(),
    ensures
        s.insert(i, k).to_set() == s.to_set().insert(k),
{
    let t = s.insert(i, k);
    assert forall|x: Seq<char>| #[trigger] t.to_set().contains(x) == s.to_set().insert(k).contains(x) by {
        if t.contains(x) {
            let j = choose|j: int| 0 <= j < t.len() && t[j] == x;
            if j < i {
                assert(s[j] == x);
            } else if j > i {
                assert(s[j - 1] == x);
            }
        }
        if s.contains(x) {
            let j = choose|j: int| 0 <= j < s.len() && s[j] == x;
            if j < i {
                assert(t[j] == x);
            } else {
                assert(t[j + 1] == x);
            }
        }
        if x == k {
            assert(t[i] == k);
        }
    }
    assert(t.to_set() =~= s.to_set().insert(k));
}

pub proof fn lemma_remove_to_set(s: Seq<Seq<char>>, i: int)
    requires
        sorted(s),
        0 <= i < s.len(),
    ensures
        s.remove(i).to_set() == s.to_set().remove(s[i]),
{
    let t = s.remove(i);
    assert forall|x: Seq<char>| #[trigger] t.to_set().contains(x) == s.to_set().remove(s[i]).contains(x) by {
        if t.contains(x) {
            let j = choose|j: int| 0 <= j < t.len() && t[j] == x;
            if j < i {
                assert(s[j] == x);
                lemma_name_lt_irreflexive(x);
            } else {
                assert(s[j + 1] == x);
                lemma_name_lt_irreflexive(x);
            }
        }
        if s.contains(x) && x != s[i] {
            let j = choose|j: int| 0 <= j < s.len() && s[j] == x;
            if j < i {
                assert(t[j] == x);
            } else {
                assert(t[j - 1] == x);
            }
        }
    }
    assert(t.to_set() =~= s.to_set().remove(s[i]));
}

/// In a sorted sequence a name stands at one index only.
pub proof fn lemma_index_of_sorted(s: Seq<Seq<char>>, i: int)
    requires
        sorted(s),
        0 <= i < s.len(),
    ensures
        s.contains(s[i]),
        s.index_of(s[i]) == i,
{
    assert(s.contains(s[i]));
    let j = s.index_of(s[i]);
    if j != i {
        lemma_name_lt_irreflexive(s[i]);
    }
}

/// Looks `key` up in the sorted `names`: returns whether it is there, and
/// its index if so, else the index at which it keeps the order.
pub fn search(names: &Vec<String>, key: &str) -> (r: (bool, usize))
    requires
        sorted(names_of(names@)),
    ensures
        r.1 <= names@.len(),
        r.0 ==> r.1 < names@.len() && names@[r.1 as int]@ == key@,
        !r.0 ==> fits_at(names_of(names@), r.1 as int, key@),
        r.0 == names_of(names@).contains(key@),
{
    let ghost s = names_of(names@);
    let mut i: usize = 0;
    while i < names.len()
        invariant
            s == names_of(names@),
            sorted(s),
            i <= names@.len(),
            forall|j: int| 0 <= j < i ==> name_lt(#[trigger] s[j], key@),
        decreases names@.len() - i,
    {
        assert(s[i as int] == names@[i as int]@);
        match compare_names(names[i].as_str(), key) {
            Cmp::Equal => {
                assert(s.contains(key@));
                return (true, i);
            },
            Cmp::Less => {},
            Cmp::Greater => {
                proof {
                    assert forall|j: int| i <= j < s.len() implies name_lt(key@, #[trigger] s[j]) by {
                        if j > i {
                            lemma_name_lt_transitive(key@, s[i as int], s[j]);
                        }
                    }
                    assert forall|j: int| 0 <= j < s.len() implies #[trigger] s[j] != key@ by {
                        lemma_name_lt_irreflexive(key@);
                    }
                }
                return (false, i);
            },
        }
        i = i + 1;
    }
    proof {
        assert forall|j: int| 0 <= j < s.len() implies #[trigger] s[j] != key@ by {
            lemma_name_lt_irreflexive(key@);
        }
    }
    (false, i)
}

} // verus!
