//! Maps keyed by name, kept in the order of the names.
//!
//! The entries of a profile are keyed by name and are walked in the
//! lexicographic order of the names' bytes. A later entry of the same name
//! replaces an earlier one.

use std::collections::HashMap;
use vstd::prelude::*;
use vstd::string::*;
use vstd::utf8::*;

verus! {

/// Whether `a` and `b` hold the same first `k` bytes.
pub open spec fn agree(a: Seq<u8>, b: Seq<u8>, k: int) -> bool {
    &&& 0 <= k <= a.len()
    &&& k <= b.len()
    &&& forall|j: int| 0 <= j < k ==> a[j] == b[j]
}

/// Lexicographic order on byte strings: at the first place where they
/// differ `a` has the smaller byte, or `a` ends there and `b` does not.
pub open spec fn bytes_less(a: Seq<u8>, b: Seq<u8>) -> bool {
    exists|k: int|
        #[trigger] agree(a, b, k) && ((k == a.len() && k < b.len()) || (k < a.len() && k < b.len()
            && a[k] < b[k]))
}

/// The order of names: that of their UTF-8 bytes.
pub open spec fn key_less(a: Seq<char>, b: Seq<char>) -> bool {
    bytes_less(encode_utf8(a), encode_utf8(b))
}

/// Two byte strings that agree up to a place where they differ are ordered by
/// the bytes at that place.
pub proof fn lemma_bytes_differ(a: Seq<u8>, b: Seq<u8>, k: int)
    requires
        agree(a, b, k),
        k < a.len(),
        k < b.len(),
        a[k] != b[k],
    ensures
        bytes_less(a, b) == (a[k] < b[k]),
{
    if a[k] < b[k] {
        assert(agree(a, b, k));
    } else {
        if bytes_less(a, b) {
            let w = choose|w: int|
                #[trigger] agree(a, b, w) && ((w == a.len() && w < b.len()) || (w < a.len() && w
                    < b.len() && a[w] < b[w]));
            if w > k {
                assert(a[k] == b[k]);
            } else if w < k {
                assert(a[w] == b[w]);
            }
        }
    }
}

/// Two byte strings of which one is a prefix of the other are ordered by
/// their lengths.
pub proof fn lemma_bytes_prefix(a: Seq<u8>, b: Seq<u8>, k: int)
    requires
        agree(a, b, k),
        k == a.len() || k == b.len(),
    ensures
        bytes_less(a, b) == (a.len() < b.len()),
        a.len() == b.len() ==> a == b,
{
    if a.len() < b.len() {
        assert(agree(a, b, k));
    } else {
        if bytes_less(a, b) {
            let w = choose|w: int|
                #[trigger] agree(a, b, w) && ((w == a.len() && w < b.len()) || (w < a.len() && w
                    < b.len() && a[w] < b[w]));
            assert(w < k);
            assert(a[w] == b[w]);
        }
        if a.len() == b.len() {
            assert(a =~= b);
        }
    }
}

/// The first place at which two byte strings differ or one of them ends.
pub proof fn lemma_first_difference(a: Seq<u8>, b: Seq<u8>, k: int) -> (w: int)
    requires
        agree(a, b, k),
    ensures
        agree(a, b, w),
        w == a.len() || w == b.len() || a[w] != b[w],
    decreases a.len() - k,
{
    if k == a.len() || k == b.len() || a[k] != b[k] {
        k
    } else {
        assert(agree(a, b, k + 1));
        lemma_first_difference(a, b, k + 1)
    }
}

/// No byte string is less than itself.
pub proof fn lemma_bytes_irreflexive(a: Seq<u8>)
    ensures
        !bytes_less(a, a),
{
    assert(agree(a, a, a.len() as int));
    lemma_bytes_prefix(a, a, a.len() as int);
}

/// Of two different byte strings one is less than the other.
pub proof fn lemma_bytes_total(a: Seq<u8>, b: Seq<u8>)
    ensures
        bytes_less(a, b) || bytes_less(b, a) || a == b,
{
    assert(agree(a, b, 0));
    let w = lemma_first_difference(a, b, 0);
    assert(agree(b, a, w));
    if w == a.len() || w == b.len() {
        lemma_bytes_prefix(a, b, w);
        lemma_bytes_prefix(b, a, w);
    } else {
        lemma_bytes_differ(a, b, w);
        lemma_bytes_differ(b, a, w);
    }
}

/// The order on byte strings is transitive.
pub proof fn lemma_bytes_transitive(a: Seq<u8>, b: Seq<u8>, c: Seq<u8>)
    requires
        bytes_less(a, b),
        bytes_less(b, c),
    ensures
        bytes_less(a, c),
{
    let i = choose|k: int|
        #[trigger] agree(a, b, k) && ((k == a.len() && k < b.len()) || (k < a.len() && k < b.len()
            && a[k] < b[k]));
    let j = choose|k: int|
        #[trigger] agree(b, c, k) && ((k == b.len() && k < c.len()) || (k < b.len() && k < c.len()
            && b[k] < c[k]));
    let m = if i <= j {
        i
    } else {
        j
    };
    assert(agree(a, c, m)) by {
        assert forall|x: int| 0 <= x < m implies a[x] == c[x] by {
            assert(a[x] == b[x]);
            assert(b[x] == c[x]);
        }
    }
    if i < j {
        assert(b[i] == c[i]);
    } else if j < i {
        assert(a[j] == b[j]);
    }
}

/// The order of names is irreflexive, transitive and total.
pub proof fn lemma_key_order(a: Seq<char>, b: Seq<char>, c: Seq<char>)
    ensures
        !key_less(a, a),
        key_less(a, b) && key_less(b, c) ==> key_less(a, c),
        key_less(a, b) || key_less(b, a) || a == b,
        key_less(a, b) ==> !key_less(b, a),
{
    lemma_bytes_irreflexive(encode_utf8(a));
    if key_less(a, b) && key_less(b, c) {
        lemma_bytes_transitive(encode_utf8(a), encode_utf8(b), encode_utf8(c));
    }
    lemma_bytes_total(encode_utf8(a), encode_utf8(b));
    encode_utf8_decode_utf8(a);
    encode_utf8_decode_utf8(b);
    if key_less(a, b) && key_less(b, a) {
        lemma_bytes_transitive(encode_utf8(a), encode_utf8(b), encode_utf8(a));
    }
}

/// Whether name `a` comes before name `b`.
pub fn name_less(a: &str, b: &str) -> (r: bool)
    ensures
        r == key_less(a@, b@),
{
    let x = a.as_bytes();
    let y = b.as_bytes();
    let mut i: usize = 0;
    while i < x.len() && i < y.len()
        invariant
            agree(x@, y@, i as int),
            x@ == encode_utf8(a@),
            y@ == encode_utf8(b@),
        decreases x@.len() - i,
    {
        if x[i] != y[i] {
            proof {
                lemma_bytes_differ(x@, y@, i as int);
            }
            return x[i] < y[i];
        }
        i = i + 1;
    }
    proof {
        lemma_bytes_prefix(x@, y@, i as int);
    }
    x.len() < y.len()
}

/// Whether `a` and `b` are the same name.
pub fn name_eq(a: &str, b: &str) -> (r: bool)
    ensures
        r == (a@ == b@),
{
    proof {
        lemma_key_order(a@, b@, a@);
    }
    !name_less(a, b) && !name_less(b, a)
}

/// A name with what it stands for.
#[derive(Debug)]
pub struct Named<T> {
    pub name: String,
    pub value: T,
}

/// A map from names to values, held in the order of the names.
#[derive(Debug)]
pub struct NameMap<T> {
    pub entries: Vec<Named<T>>,
}

/// Whether the names of the entries ascend strictly.
pub open spec fn ascending<T>(s: Seq<Named<T>>) -> bool {
    forall|i: int, j: int| 0 <= i < j < s.len() ==> key_less(#[trigger] s[i].name@, #[trigger] s[j].name@)
}

/// Whether some entry has the name `k`.
pub open spec fn has_name<T>(s: Seq<Named<T>>, k: Seq<char>) -> bool {
    exists|i: int| 0 <= i < s.len() && #[trigger] s[i].name@ == k
}

/// The position of an entry with the name `k`.
pub open spec fn position<T>(s: Seq<Named<T>>, k: Seq<char>) -> int {
    choose|i: int| 0 <= i < s.len() && #[trigger] s[i].name@ == k
}

/// The map that the entries stand for.
pub open spec fn as_map<T>(s: Seq<Named<T>>) -> Map<Seq<char>, T> {
    Map::new(|k: Seq<char>| has_name(s, k), |k: Seq<char>| s[position(s, k)].value)
}

/// Whether no two entries have the same name.
pub open spec fn distinct<T>(s: Seq<Named<T>>) -> bool {
    forall|i: int, j: int| 0 <= i < j < s.len() ==> #[trigger] s[i].name@ != #[trigger] s[j].name@
}

/// Entries whose names ascend have distinct names.
pub proof fn lemma_ascending_distinct<T>(s: Seq<Named<T>>)
    requires
        ascending(s),
    ensures
        distinct(s),
{
    assert forall|i: int, j: int| 0 <= i < j < s.len() implies #[trigger] s[i].name@
        != #[trigger] s[j].name@ by {
        lemma_key_order(s[i].name@, s[i].name@, s[i].name@);
    }
}

/// Among entries with distinct names a name stands at one position only.
pub proof fn lemma_position<T>(s: Seq<Named<T>>, i: int)
    requires
        ascending(s) || distinct(s),
        0 <= i < s.len(),
    ensures
        has_name(s, s[i].name@),
        position(s, s[i].name@) == i,
        as_map(s).contains_key(s[i].name@),
        as_map(s)[s[i].name@] == s[i].value,
{
    if ascending(s) {
        lemma_ascending_distinct(s);
    }
    let k = s[i].name@;
    assert(has_name(s, k));
    let p = position(s, k);
    if p < i {
        assert(s[p].name@ != s[i].name@);
    } else if i < p {
        assert(s[i].name@ != s[p].name@);
    }
}

/// Whether no entry of `a` has the name of an entry of `b`.
pub open spec fn apart<T>(a: Seq<Named<T>>, b: Seq<Named<T>>) -> bool {
    forall|i: int, j: int|
        0 <= i < a.len() && 0 <= j < b.len() ==> #[trigger] a[i].name@ != #[trigger] b[j].name@
}

/// Whether `a` and `b` hold the same entries, in whatever order.
pub open spec fn same_entries<T>(a: Seq<Named<T>>, b: Seq<Named<T>>) -> bool {
    forall|x: Named<T>| a.contains(x) <==> b.contains(x)
}

/// Entries with distinct names that are put in another order stand for the
/// same map.
pub proof fn lemma_same_entries_same_map<T>(a: Seq<Named<T>>, b: Seq<Named<T>>)
    requires
        distinct(a),
        distinct(b),
        same_entries(a, b),
    ensures
        as_map(a) == as_map(b),
{
    assert forall|k: Seq<char>| as_map(a).contains_key(k) <==> as_map(b).contains_key(k) by {
        if has_name(a, k) {
            let i = position(a, k);
            assert(a.contains(a[i]));
            let j = choose|j: int| 0 <= j < b.len() && b[j] == a[i];
            assert(b[j].name@ == k);
        }
        if has_name(b, k) {
            let i = position(b, k);
            assert(b.contains(b[i]));
            let j = choose|j: int| 0 <= j < a.len() && a[j] == b[i];
            assert(a[j].name@ == k);
        }
    }
    assert forall|k: Seq<char>| as_map(a).contains_key(k) implies as_map(a)[k] == as_map(b)[k] by {
        let i = position(a, k);
        assert(a.contains(a[i]));
        let j = choose|j: int| 0 <= j < b.len() && b[j] == a[i];
        lemma_position(b, j);
    }
    assert(as_map(a) =~= as_map(b));
}

/// Merges two runs of ascending entries into one.
fn merge<T>(a: Vec<Named<T>>, b: Vec<Named<T>>) -> (r: Vec<Named<T>>)
    requires
        ascending(a@),
        ascending(b@),
        apart(a@, b@),
    ensures
        ascending(r@),
        forall|x: Named<T>| r@.contains(x) <==> (a@.contains(x) || b@.contains(x)),
{
    let ghost a0 = a@;
    let ghost b0 = b@;
    let mut a = a;
    let mut b = b;
    let mut down: Vec<Named<T>> = Vec::new();
    while a.len() > 0 || b.len() > 0
        invariant
            ascending(a0),
            ascending(b0),
            apart(a0, b0),
            a@ == a0.take(a@.len() as int),
            b@ == b0.take(b@.len() as int),
            a@.len() <= a0.len(),
            b@.len() <= b0.len(),
            forall|i: int, j: int|
                0 <= i < j < down@.len() ==> key_less(
                    #[trigger] down@[j].name@,
                    #[trigger] down@[i].name@,
                ),
            forall|i: int, j: int|
                0 <= i < a@.len() && 0 <= j < down@.len() ==> key_less(
                    #[trigger] a0[i].name@,
                    #[trigger] down@[j].name@,
                ),
            forall|i: int, j: int|
                0 <= i < b@.len() && 0 <= j < down@.len() ==> key_less(
                    #[trigger] b0[i].name@,
                    #[trigger] down@[j].name@,
                ),
            forall|x: Named<T>|
                (a0.contains(x) || b0.contains(x)) <==> (a@.contains(x) || b@.contains(x)
                    || down@.contains(x)),
        decreases a@.len() + b@.len(),
    {
        let from_b = if a.len() == 0 {
            true
        } else if b.len() == 0 {
            false
        } else {
            name_less(a[a.len() - 1].name.as_str(), b[b.len() - 1].name.as_str())
        };
        let ghost a1 = a@;
        let ghost b1 = b@;
        let ghost d1 = down@;
        let taken = if from_b {
            b.pop()
        } else {
            a.pop()
        };
        match taken {
            Some(e) => {
                down.push(e);
                proof {
                    let n = d1.len() as int;
                    assert(a@ =~= a0.take(a@.len() as int));
                    assert(b@ =~= b0.take(b@.len() as int));
                    assert forall|i: int, j: int| 0 <= i < a@.len() && 0 <= j < down@.len() implies key_less(
                        #[trigger] a0[i].name@,
                        #[trigger] down@[j].name@,
                    ) by {
                        if j == n {
                            if from_b {
                                let la = a1.len() - 1;
                                let lb = b1.len() - 1;
                                assert(a1[la] == a0[la]);
                                assert(b1[lb] == b0[lb]);
                                if i < la {
                                    assert(key_less(a0[i].name@, a0[la].name@));
                                    lemma_key_order(a0[i].name@, a0[la].name@, e.name@);
                                }
                            } else {
                                let la = a1.len() - 1;
                                assert(a1[la] == a0[la]);
                                assert(key_less(a0[i].name@, a0[la].name@));
                            }
                        }
                    }
                    assert forall|i: int, j: int| 0 <= i < b@.len() && 0 <= j < down@.len() implies key_less(
                        #[trigger] b0[i].name@,
                        #[trigger] down@[j].name@,
                    ) by {
                        if j == n {
                            if from_b {
                                let lb = b1.len() - 1;
                                assert(b1[lb] == b0[lb]);
                                assert(key_less(b0[i].name@, b0[lb].name@));
                            } else {
                                let la = a1.len() - 1;
                                let lb = b1.len() - 1;
                                assert(a1[la] == a0[la]);
                                assert(b1[lb] == b0[lb]);
                                assert(a0[la].name@ != b0[lb].name@);
                                lemma_key_order(a0[la].name@, b0[lb].name@, a0[la].name@);
                                if i < lb {
                                    assert(key_less(b0[i].name@, b0[lb].name@));
                                    lemma_key_order(b0[i].name@, b0[lb].name@, e.name@);
                                }
                            }
                        }
                    }
                    assert forall|i: int, j: int| 0 <= i < j < down@.len() implies key_less(
                        #[trigger] down@[j].name@,
                        #[trigger] down@[i].name@,
                    ) by {
                        if j == n {
                            if from_b {
                                assert(b1[b1.len() - 1] == b0[b1.len() - 1]);
                            } else {
                                assert(a1[a1.len() - 1] == a0[a1.len() - 1]);
                            }
                            assert(down@[i] == d1[i]);
                        }
                    }
                    assert forall|x: Named<T>|
                        (a0.contains(x) || b0.contains(x)) <==> (a@.contains(x) || b@.contains(x)
                            || down@.contains(x)) by {
                        assert(down@[n] == e);
                        if d1.contains(x) {
                            let i = choose|i: int| 0 <= i < d1.len() && d1[i] == x;
                            assert(down@[i] == x);
                        }
                        if down@.contains(x) {
                            let i = choose|i: int| 0 <= i < down@.len() && down@[i] == x;
                            if i < n {
                                assert(d1[i] == x);
                            }
                        }
                        if a1.contains(x) {
                            let i = choose|i: int| 0 <= i < a1.len() && a1[i] == x;
                            if i < a@.len() {
                                assert(a@[i] == x);
                            }
                        }
                        if a@.contains(x) {
                            let i = choose|i: int| 0 <= i < a@.len() && a@[i] == x;
                            assert(a1[i] == x);
                        }
                        if b1.contains(x) {
                            let i = choose|i: int| 0 <= i < b1.len() && b1[i] == x;
                            if i < b@.len() {
                                assert(b@[i] == x);
                            }
                        }
                        if b@.contains(x) {
                            let i = choose|i: int| 0 <= i < b@.len() && b@[i] == x;
                            assert(b1[i] == x);
                        }
                        assert(a1.contains(x) || b1.contains(x) || d1.contains(x) <==> a@.contains(x)
                            || b@.contains(x) || down@.contains(x)) by {
                            if from_b {
                                assert(b1[b1.len() - 1] == e);
                            } else {
                                assert(a1[a1.len() - 1] == e);
                            }
                        }
                    }
                }
            },
            None => {},
        }
    }
    let ghost d0 = down@;
    assert forall|x: Named<T>| d0.contains(x) <==> (a0.contains(x) || b0.contains(x)) by {
        assert(!a@.contains(x));
        assert(!b@.contains(x));
    }
    let mut up: Vec<Named<T>> = Vec::new();
    while down.len() > 0
        invariant
            down@ == d0.take(down@.len() as int),
            down@.len() <= d0.len(),
            up@.len() == d0.len() - down@.len(),
            forall|i: int| 0 <= i < up@.len() ==> #[trigger] up@[i] == d0[d0.len() - 1 - i],
            forall|i: int, j: int|
                0 <= i < j < d0.len() ==> key_less(#[trigger] d0[j].name@, #[trigger] d0[i].name@),
        decreases down@.len(),
    {
        let ghost before = down@;
        match down.pop() {
            Some(e) => {
                assert(e == d0[before.len() - 1]);
                up.push(e);
                assert(down@ =~= d0.take(down@.len() as int));
            },
            None => {},
        }
    }
    proof {
        assert forall|i: int, j: int| 0 <= i < j < up@.len() implies key_less(
            #[trigger] up@[i].name@,
            #[trigger] up@[j].name@,
        ) by {
            assert(key_less(d0[d0.len() - 1 - i].name@, d0[d0.len() - 1 - j].name@));
        }
        assert forall|x: Named<T>| up@.contains(x) <==> d0.contains(x) by {
            if up@.contains(x) {
                let i = choose|i: int| 0 <= i < up@.len() && up@[i] == x;
                assert(d0[d0.len() - 1 - i] == x);
            }
            if d0.contains(x) {
                let i = choose|i: int| 0 <= i < d0.len() && d0[i] == x;
                assert(up@[d0.len() - 1 - i] == x);
            }
        }
    }
    up
}

/// Puts entries with distinct names in the order of their names.
fn sort<T>(v: Vec<Named<T>>) -> (r: Vec<Named<T>>)
    requires
        distinct(v@),
    ensures
        ascending(r@),
        same_entries(r@, v@),
    decreases v@.len(),
{
    if v.len() <= 1 {
        return v;
    }
    let ghost v0 = v@;
    let mut front = v;
    let half = front.len() / 2;
    let back = front.split_off(half);
    proof {
        assert forall|i: int, j: int| 0 <= i < j < front@.len() implies #[trigger] front@[i].name@
            != #[trigger] front@[j].name@ by {
            assert(front@[i] == v0[i] && front@[j] == v0[j]);
        }
        assert forall|i: int, j: int| 0 <= i < j < back@.len() implies #[trigger] back@[i].name@
            != #[trigger] back@[j].name@ by {
            assert(back@[i] == v0[half + i] && back@[j] == v0[half + j]);
        }
    }
    let ghost f0 = front@;
    let ghost b0 = back@;
    let a = sort(front);
    let b = sort(back);
    proof {
        assert forall|i: int, j: int| 0 <= i < a@.len() && 0 <= j < b@.len() implies #[trigger] a@[i].name@
            != #[trigger] b@[j].name@ by {
            assert(a@.contains(a@[i]));
            assert(b@.contains(b@[j]));
            let x = choose|x: int| 0 <= x < f0.len() && f0[x] == a@[i];
            let y = choose|y: int| 0 <= y < b0.len() && b0[y] == b@[j];
            assert(f0[x] == v0[x] && b0[y] == v0[half + y]);
        }
    }
    let r = merge(a, b);
    proof {
        assert forall|x: Named<T>| r@.contains(x) <==> v0.contains(x) by {
            if f0.contains(x) {
                let i = choose|i: int| 0 <= i < f0.len() && f0[i] == x;
                assert(v0[i] == x);
            }
            if b0.contains(x) {
                let i = choose|i: int| 0 <= i < b0.len() && b0[i] == x;
                assert(v0[half + i] == x);
            }
            if v0.contains(x) {
                let i = choose|i: int| 0 <= i < v0.len() && v0[i] == x;
                if i < half {
                    assert(f0[i] == x);
                } else {
                    assert(b0[i - half] == x);
                }
            }
        }
    }
    r
}

impl<T> View for NameMap<T> {
    type V = Map<Seq<char>, T>;

    open spec fn view(&self) -> Map<Seq<char>, T> {
        as_map(self.entries@)
    }
}

impl<T> NameMap<T> {
    /// Whether the entries stand in the order of their names, each name once.
    pub open spec fn wf(&self) -> bool {
        ascending(self.entries@)
    }

    /// The map of entries with distinct names.
    pub fn from_distinct(entries: Vec<Named<T>>) -> (r: Self)
        requires
            distinct(entries@),
        ensures
            r.wf(),
            r@ == as_map(entries@),
            same_entries(r.entries@, entries@),
    {
        let sorted = sort(entries);
        proof {
            lemma_ascending_distinct(sorted@);
            lemma_same_entries_same_map(sorted@, entries@);
        }
        NameMap { entries: sorted }
    }

    pub fn new() -> (r: Self)
        ensures
            r.wf(),
            r@ == Map::<Seq<char>, T>::empty(),
            r.entries@.len() == 0,
    {
        let r = NameMap { entries: Vec::new() };
        assert(r@ =~= Map::<Seq<char>, T>::empty());
        r
    }

    /// Number of entries.
    pub fn len(&self) -> (r: usize)
        ensures
            r == self.entries@.len(),
    {
        self.entries.len()
    }

    /// The position of the first entry whose name is not before `key`.
    fn lower_bound(&self, key: &str) -> (p: usize)
        requires
            self.wf(),
        ensures
            p <= self.entries@.len(),
            forall|j: int| 0 <= j < p ==> key_less(#[trigger] self.entries@[j].name@, key@),
            forall|j: int|
                p <= j < self.entries@.len() ==> !key_less(#[trigger] self.entries@[j].name@, key@),
    {
        let mut lo: usize = 0;
        let mut hi: usize = self.entries.len();
        while lo < hi
            invariant
                self.wf(),
                lo <= hi <= self.entries@.len(),
                forall|j: int| 0 <= j < lo ==> key_less(#[trigger] self.entries@[j].name@, key@),
                forall|j: int|
                    hi <= j < self.entries@.len() ==> !key_less(
                        #[trigger] self.entries@[j].name@,
                        key@,
                    ),
            decreases hi - lo,
        {
            let mid = lo + (hi - lo) / 2;
            let ghost m = self.entries@[mid as int].name@;
            if name_less(self.entries[mid].name.as_str(), key) {
                assert forall|j: int| 0 <= j < mid + 1 implies key_less(
                    #[trigger] self.entries@[j].name@,
                    key@,
                ) by {
                    if j < mid {
                        assert(key_less(self.entries@[j].name@, self.entries@[mid as int].name@));
                        lemma_key_order(self.entries@[j].name@, m, key@);
                    }
                }
                lo = mid + 1;
            } else {
                assert forall|j: int| mid <= j < self.entries@.len() implies !key_less(
                    #[trigger] self.entries@[j].name@,
                    key@,
                ) by {
                    if mid < j {
                        assert(key_less(self.entries@[mid as int].name@, self.entries@[j].name@));
                        lemma_key_order(m, self.entries@[j].name@, key@);
                    }
                }
                hi = mid;
            }
        }
        lo
    }

    /// The position of the entry with the name `key`, if there is one.
    pub fn find(&self, key: &str) -> (r: Option<usize>)
        requires
            self.wf(),
        ensures
            match r {
                Some(i) => i < self.entries@.len() && self.entries@[i as int].name@ == key@,
                None => !self@.contains_key(key@),
            },
    {
        let p = self.lower_bound(key);
        if p < self.entries.len() && !name_less(key, self.entries[p].name.as_str()) {
            proof {
                lemma_key_order(key@, self.entries@[p as int].name@, key@);
            }
            Some(p)
        } else {
            proof {
                if has_name(self.entries@, key@) {
                    let i = position(self.entries@, key@);
                    lemma_key_order(key@, key@, key@);
                    if i > p {
                        assert(key_less(self.entries@[p as int].name@, self.entries@[i].name@));
                    }
                }
            }
            None
        }
    }

    /// Whether the map has an entry with the name `key`.
    pub fn contains_key(&self, key: &str) -> (r: bool)
        requires
            self.wf(),
        ensures
            r == self@.contains_key(key@),
    {
        match self.find(key) {
            Some(i) => {
                proof {
                    lemma_position(self.entries@, i as int);
                }
                true
            },
            None => false,
        }
    }

    /// The value under the name `key`, if there is one.
    pub fn get(&self, key: &str) -> (r: Option<&T>)
        requires
            self.wf(),
        ensures
            match r {
                Some(v) => self@.contains_key(key@) && *v == self@[key@],
                None => !self@.contains_key(key@),
            },
    {
        match self.find(key) {
            Some(i) => {
                proof {
                    lemma_position(self.entries@, i as int);
                }
                Some(&self.entries[i].value)
            },
            None => None,
        }
    }

    /// Puts `value` under the name `key`, in place of what was there.
    pub fn insert(&mut self, key: String, value: T)
        requires
            old(self).wf(),
        ensures
            final(self).wf(),
            final(self)@ == old(self)@.insert(key@, value),
    {
        let p = self.lower_bound(key.as_str());
        let ghost before = self.entries@;
        let ghost k = key@;
        let hit = p < self.entries.len() && !name_less(key.as_str(), self.entries[p].name.as_str());
        if hit {
            proof {
                lemma_key_order(k, before[p as int].name@, k);
            }
            self.entries.set(p, Named { name: key, value });
        } else {
            self.entries.insert(p, Named { name: key, value });
        }
        let ghost after = self.entries@;
        proof {
            assert forall|i: int, j: int| 0 <= i < j < after.len() implies key_less(
                #[trigger] after[i].name@,
                #[trigger] after[j].name@,
            ) by {
                if hit {
                    assert(after[i].name@ == before[i].name@);
                    assert(after[j].name@ == before[j].name@);
                } else {
                    let bi = if i < p { i } else { i - 1 };
                    let bj = if j < p { j } else { j - 1 };
                    if i == p {
                        assert(!key_less(before[bj].name@, k));
                        if p < before.len() {
                            assert(!key_less(before[p as int].name@, k));
                            lemma_key_order(k, before[p as int].name@, k);
                            lemma_key_order(k, before[p as int].name@, before[bj].name@);
                        }
                        lemma_key_order(k, before[bj].name@, k);
                    } else if j == p {
                        assert(key_less(before[bi].name@, k));
                    } else {
                        assert(key_less(before[bi].name@, before[bj].name@));
                    }
                }
            }
            assert(after[p as int].name@ == k);
            lemma_position(after, p as int);
            assert forall|x: Seq<char>| as_map(after).contains_key(x) <==> as_map(
                before,
            ).insert(k, value).contains_key(x) by {
                if has_name(after, x) {
                    let i = position(after, x);
                    if i != p {
                        let bi = if hit || i < p { i } else { i - 1 };
                        assert(before[bi].name@ == x);
                    }
                }
                if has_name(before, x) {
                    let i = position(before, x);
                    let ai = if hit || i < p { i } else { i + 1 };
                    assert(after[ai].name@ == x);
                }
            }
            assert forall|x: Seq<char>| as_map(after).contains_key(x) implies as_map(after)[x]
                == as_map(before).insert(k, value)[x] by {
                let i = position(after, x);
                lemma_position(after, i);
                if x != k {
                    let bi = if hit || i < p { i } else { i - 1 };
                    assert(before[bi].name@ == x);
                    lemma_position(before, bi);
                }
            }
            assert(as_map(after) =~= as_map(before).insert(k, value));
        }
    }

    /// Puts `value` in place of the value of the entry at position `i`, and
    /// returns the value that stood there.
    pub fn swap_value(&mut self, i: usize, value: T) -> (r: T)
        requires
            old(self).wf(),
            i < old(self).entries@.len(),
        ensures
            final(self).wf(),
            r == old(self).entries@[i as int].value,
            final(self).entries@.len() == old(self).entries@.len(),
            final(self).entries@[i as int].value == value,
            forall|j: int|
                0 <= j < old(self).entries@.len() ==> (#[trigger] final(self).entries@[j]).name@
                    == old(self).entries@[j].name@,
            forall|j: int|
                0 <= j < old(self).entries@.len() && j != i ==> (#[trigger] final(self).entries@[j]).value
                    == old(self).entries@[j].value,
    {
        let name = self.entries[i].name.clone();
        self.entries.push(Named { name, value });
        let out = self.entries.swap_remove(i);
        out.value
    }
}


/// A number that stands for a byte string in a table: the bytes read as the
/// digits of a number to the base 31, modulo 2^64.
pub open spec fn bytes_slot(s: Seq<u8>) -> u64
    decreases s.len(),
{
    if s.len() == 0 {
        0
    } else {
        ((bytes_slot(s.drop_last()) * 31 + s.last()) % 0x1_0000_0000_0000_0000) as u64
    }
}

/// The number that stands for a name in a table.
pub open spec fn name_slot(name: Seq<char>) -> u64 {
    bytes_slot(encode_utf8(name))
}

fn slot_of(key: &str) -> (h: u64)
    ensures
        h == name_slot(key@),
{
    let bytes = key.as_bytes();
    let mut h: u64 = 0;
    let mut i: usize = 0;
    while i < bytes.len()
        invariant
            bytes@ == encode_utf8(key@),
            i <= bytes@.len(),
            h == bytes_slot(bytes@.take(i as int)),
        decreases bytes@.len() - i,
    {
        proof {
            assert(bytes@.take(i + 1).drop_last() =~= bytes@.take(i as int));
        }
        h = ((h as u128 * 31 + bytes[i] as u128) % 0x1_0000_0000_0000_0000) as u64;
        i = i + 1;
    }
    proof {
        assert(bytes@.take(bytes@.len() as int) =~= bytes@);
    }
    h
}

/// Whether the list holds the position `i`.
pub open spec fn listed(list: Seq<usize>, i: int) -> bool {
    exists|y: int| 0 <= y < list.len() && #[trigger] list[y] == i
}

/// A map from names to values that is filled name by name: the entries stand
/// in the order in which their names came, and a table tells for the number
/// of a name at which positions names of that number stand.
#[derive(Debug)]
pub struct NameIndex<T> {
    pub entries: Vec<Named<T>>,
    pub slots: HashMap<u64, Vec<usize>>,
}

impl<T> View for NameIndex<T> {
    type V = Map<Seq<char>, T>;

    open spec fn view(&self) -> Map<Seq<char>, T> {
        as_map(self.entries@)
    }
}

impl<T> NameIndex<T> {
    /// Whether each name stands once, and the table knows each position
    /// under the number of its name and knows nothing but positions.
    pub open spec fn wf(&self) -> bool {
        &&& distinct(self.entries@)
        &&& forall|i: int|
            0 <= i < self.entries@.len() ==> self.slots@.contains_key(
                name_slot(#[trigger] self.entries@[i].name@),
            ) && listed(self.slots@[name_slot(self.entries@[i].name@)]@, i)
        &&& forall|h: u64, x: int|
            self.slots@.contains_key(h) && 0 <= x < self.slots@[h]@.len() ==> (
            #[trigger] self.slots@[h]@[x]) < self.entries@.len()
    }

    pub fn new() -> (r: Self)
        ensures
            r.wf(),
            r@ == Map::<Seq<char>, T>::empty(),
            r.entries@.len() == 0,
    {
        let r = NameIndex { entries: Vec::new(), slots: HashMap::new() };
        assert(r@ =~= Map::<Seq<char>, T>::empty());
        r
    }

    /// The position of the entry with the name `key`, if there is one.
    pub fn find(&self, key: &str) -> (r: Option<usize>)
        requires
            self.wf(),
        ensures
            match r {
                Some(i) => i < self.entries@.len() && self.entries@[i as int].name@ == key@,
                None => !self@.contains_key(key@),
            },
    {
        broadcast use vstd::std_specs::hash::group_hash_axioms;

        let h = slot_of(key);
        let list = match self.slots.get(&h) {
            Some(list) => list,
            None => {
                proof {
                    if has_name(self.entries@, key@) {
                        let i = position(self.entries@, key@);
                        assert(self.slots@.contains_key(name_slot(self.entries@[i].name@)));
                    }
                }
                return None;
            },
        };
        let mut x: usize = 0;
        while x < list.len()
            invariant
                self.wf(),
                self.slots@.contains_key(h),
                *list == self.slots@[h],
                x <= list@.len(),
                forall|y: int|
                    0 <= y < x ==> self.entries@[(#[trigger] list@[y]) as int].name@ != key@,
            decreases list@.len() - x,
        {
            let i = list[x];
            if name_eq(self.entries[i].name.as_str(), key) {
                return Some(i);
            }
            x = x + 1;
        }
        proof {
            if has_name(self.entries@, key@) {
                let i = position(self.entries@, key@);
                assert(0 <= i < self.entries@.len() && self.entries@[i].name@ == key@);
                assert(name_slot(self.entries@[i].name@) == h);
                assert(listed(self.slots@[h]@, i));
                let y = choose|y: int| 0 <= y < list@.len() && #[trigger] list@[y] == i;
                assert(self.entries@[list@[y] as int].name@ != key@);
            }
        }
        None
    }

    /// The value under the name `key`, if there is one.
    pub fn get(&self, key: &str) -> (r: Option<&T>)
        requires
            self.wf(),
        ensures
            match r {
                Some(v) => self@.contains_key(key@) && *v == self@[key@],
                None => !self@.contains_key(key@),
            },
    {
        match self.find(key) {
            Some(i) => {
                proof {
                    lemma_position(self.entries@, i as int);
                }
                Some(&self.entries[i].value)
            },
            None => None,
        }
    }

    /// Puts `value` under the name `key`, in place of what was there.
    pub fn put(&mut self, key: String, value: T)
        requires
            old(self).wf(),
        ensures
            final(self).wf(),
            final(self)@ == old(self)@.insert(key@, value),
    {
        broadcast use vstd::std_specs::hash::group_hash_axioms;

        let ghost before = self.entries@;
        let ghost table = self.slots@;
        let ghost k = key@;
        match self.find(key.as_str()) {
            Some(p) => {
                self.entries.set(p, Named { name: key, value });
                let ghost after = self.entries@;
                proof {
                    assert forall|i: int| 0 <= i < after.len() implies (#[trigger] after[i]).name@
                        == before[i].name@ by {}
                    assert(distinct(after));
                    lemma_position(after, p as int);
                    lemma_replaced(before, after, p as int, k, value);
                }
            },
            None => {
                let n = self.entries.len();
                let h = slot_of(key.as_str());
                self.entries.push(Named { name: key, value });
                let mut list = match self.slots.remove(&h) {
                    Some(list) => list,
                    None => Vec::new(),
                };
                let ghost old_list = list@;
                list.push(n);
                self.slots.insert(h, list);
                let ghost after = self.entries@;
                proof {
                    assert(table.contains_key(h) ==> old_list == table[h]@);
                    assert forall|i: int, j: int| 0 <= i < j < after.len() implies #[trigger] after[i].name@
                        != #[trigger] after[j].name@ by {
                        if j == n {
                            assert(before[i].name@ == after[i].name@);
                            assert(has_name(before, before[i].name@));
                        } else {
                            assert(before[i] == after[i] && before[j] == after[j]);
                        }
                    }
                    assert forall|i: int| 0 <= i < after.len() implies self.slots@.contains_key(
                        name_slot(#[trigger] after[i].name@),
                    ) && listed(self.slots@[name_slot(after[i].name@)]@, i) by {
                        let hi = name_slot(after[i].name@);
                        if i == n {
                            assert(self.slots@[h]@[old_list.len() as int] == n);
                        } else {
                            assert(after[i] == before[i]);
                            assert(listed(table[hi]@, i));
                            if hi == h {
                                let y = choose|y: int|
                                    0 <= y < old_list.len() && #[trigger] old_list[y] == i;
                                assert(self.slots@[h]@[y] == i);
                            }
                        }
                    }
                    assert forall|g: u64, x: int|
                        self.slots@.contains_key(g) && 0 <= x < self.slots@[g]@.len() implies (
                    #[trigger] self.slots@[g]@[x]) < after.len() by {
                        if g == h {
                            if x < old_list.len() {
                                assert(table.contains_key(h));
                                assert(table[h]@[x] < before.len());
                            }
                        } else {
                            assert(table[g]@[x] < before.len());
                        }
                    }
                    lemma_position(after, n as int);
                    lemma_added(before, after, k, value);
                }
            },
        }
    }

    /// The map with its entries in the order of their names.
    pub fn into_sorted(self) -> (r: NameMap<T>)
        requires
            self.wf(),
        ensures
            r.wf(),
            r@ == self@,
    {
        NameMap::from_distinct(self.entries)
    }
}

/// Entries of which one got another value stand for the map with that value
/// under its name.
proof fn lemma_replaced<T>(before: Seq<Named<T>>, after: Seq<Named<T>>, p: int, k: Seq<char>, v: T)
    requires
        distinct(before),
        distinct(after),
        0 <= p < before.len(),
        after.len() == before.len(),
        before[p].name@ == k,
        after[p].name@ == k,
        after[p].value == v,
        forall|i: int| 0 <= i < before.len() && i != p ==> #[trigger] after[i] == before[i],
    ensures
        as_map(after) == as_map(before).insert(k, v),
{
    assert forall|x: Seq<char>| as_map(after).contains_key(x) <==> as_map(before).insert(
        k,
        v,
    ).contains_key(x) by {
        if has_name(after, x) {
            let i = position(after, x);
            assert(before[i].name@ == x);
        }
        if has_name(before, x) {
            let i = position(before, x);
            assert(after[i].name@ == x);
        }
        assert(after[p].name@ == k);
    }
    assert forall|x: Seq<char>| as_map(after).contains_key(x) implies as_map(after)[x] == as_map(
        before,
    ).insert(k, v)[x] by {
        let i = position(after, x);
        lemma_position(after, i);
        if i != p {
            lemma_position(before, i);
        } else {
            lemma_position(after, p);
        }
    }
    assert(as_map(after) =~= as_map(before).insert(k, v));
}

/// Entries to which one of a new name was added stand for the map with that
/// entry added.
proof fn lemma_added<T>(before: Seq<Named<T>>, after: Seq<Named<T>>, k: Seq<char>, v: T)
    requires
        distinct(before),
        distinct(after),
        !has_name(before, k),
        after.len() == before.len() + 1,
        after[before.len() as int].name@ == k,
        after[before.len() as int].value == v,
        forall|i: int| 0 <= i < before.len() ==> #[trigger] after[i] == before[i],
    ensures
        as_map(after) == as_map(before).insert(k, v),
{
    let n = before.len() as int;
    assert forall|x: Seq<char>| as_map(after).contains_key(x) <==> as_map(before).insert(
        k,
        v,
    ).contains_key(x) by {
        if has_name(after, x) {
            let i = position(after, x);
            if i < n {
                assert(before[i].name@ == x);
            }
        }
        if has_name(before, x) {
            let i = position(before, x);
            assert(after[i].name@ == x);
        }
        assert(after[n].name@ == k);
    }
    assert forall|x: Seq<char>| as_map(after).contains_key(x) implies as_map(after)[x] == as_map(
        before,
    ).insert(k, v)[x] by {
        let i = position(after, x);
        lemma_position(after, i);
        if i < n {
            lemma_position(before, i);
        } else {
            lemma_position(after, n);
        }
    }
    assert(as_map(after) =~= as_map(before).insert(k, v));
}

} // verus!
