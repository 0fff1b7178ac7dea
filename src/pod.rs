use vstd::prelude::*;
use crate::error::Error;

verus! {

broadcast use vstd::std_specs::vec::group_vec_axioms;

/// The dynamic value that front matter is turned into.
///
/// A mapping is held as a list of entries; its order carries no meaning, and in a well-formed
/// value (see [`Pod::wf`]) its keys are distinct. A float is held as its IEEE-754 binary64 bit
/// pattern.
#[derive(Debug)]
pub enum Pod {
    Null,
    String(String),
    Integer(i64),
    Float(u64),
    Boolean(bool),
    Array(Vec<Pod>),
    Hash(Vec<(String, Pod)>),
}

/// The mathematical value of a [`Pod`]: a mapping is a map from key to value.
pub enum PodView {
    Null,
    Str(Seq<char>),
    Integer(i64),
    Float(u64),
    Boolean(bool),
    Array(Seq<PodView>),
    Hash(Map<Seq<char>, PodView>),
}

pub open spec fn pod_view(p: Pod) -> PodView
    decreases p,
{
    match p {
        Pod::Null => PodView::Null,
        Pod::String(s) => PodView::Str(s@),
        Pod::Integer(i) => PodView::Integer(i),
        Pod::Float(b) => PodView::Float(b),
        Pod::Boolean(b) => PodView::Boolean(b),
        Pod::Array(v) => PodView::Array(array_view(v, v.len() as nat)),
        Pod::Hash(v) => PodView::Hash(hash_view(v, v.len() as nat)),
    }
}

/// The views of the first `n` elements of `v`.
pub open spec fn array_view(v: Vec<Pod>, n: nat) -> Seq<PodView>
    decreases v, n,
{
    if n == 0 || n > v.len() {
        Seq::empty()
    } else {
        array_view(v, (n - 1) as nat).push(pod_view(v[n - 1]))
    }
}

/// The map that the first `n` entries of `v` give, a later entry overriding an earlier one.
pub open spec fn hash_view(v: Vec<(String, Pod)>, n: nat) -> Map<Seq<char>, PodView>
    decreases v, n,
{
    if n == 0 || n > v.len() {
        Map::empty()
    } else {
        hash_view(v, (n - 1) as nat).insert(v[n - 1].0@, pod_view(v[n - 1].1))
    }
}

/// Index of the last of the first `n` entries of `v` with key `k`, or -1.
pub open spec fn last_index(v: Seq<(String, Pod)>, n: int, k: Seq<char>) -> int
    decreases n,
{
    if n <= 0 {
        -1
    } else if v[n - 1].0@ == k {
        n - 1
    } else {
        last_index(v, n - 1, k)
    }
}

pub open spec fn keys_distinct(v: Seq<(String, Pod)>) -> bool {
    forall|i: int, j: int| 0 <= i < v.len() && 0 <= j < v.len() && i != j ==> v[i].0@ != v[j].0@
}

pub open spec fn pod_wf(p: Pod) -> bool
    decreases p,
{
    match p {
        Pod::Array(v) => array_wf(v, v.len() as nat),
        Pod::Hash(v) => keys_distinct(v@) && hash_wf(v, v.len() as nat),
        _ => true,
    }
}

/// The first `n` elements of `v` are well formed.
pub open spec fn array_wf(v: Vec<Pod>, n: nat) -> bool
    decreases v, n,
{
    if n == 0 || n > v.len() {
        true
    } else {
        array_wf(v, (n - 1) as nat) && pod_wf(v[n - 1])
    }
}

/// The values of the first `n` entries of `v` are well formed.
pub open spec fn hash_wf(v: Vec<(String, Pod)>, n: nat) -> bool
    decreases v, n,
{
    if n == 0 || n > v.len() {
        true
    } else {
        hash_wf(v, (n - 1) as nat) && pod_wf(v[n - 1].1)
    }
}

pub proof fn lemma_array_wf(v: Vec<Pod>, n: nat)
    requires
        n <= v.len(),
    ensures
        array_wf(v, n) <==> forall|j: int| 0 <= j < n ==> #[trigger] pod_wf(v[j]),
    decreases n,
{
    if n > 0 {
        lemma_array_wf(v, (n - 1) as nat);
        assert(decreases_to!(v => v[n - 1]));
        assert(array_wf(v, n) == (array_wf(v, (n - 1) as nat) && pod_wf(v[n - 1])));
    }
}

pub proof fn lemma_wf_array(v: Vec<Pod>)
    ensures
        pod_wf(Pod::Array(v)) <==> forall|j: int| 0 <= j < v.len() ==> #[trigger] pod_wf(v[j]),
{
    assert(pod_wf(Pod::Array(v)) == array_wf(v, v.len() as nat));
    lemma_array_wf(v, v.len() as nat);
}

pub proof fn lemma_wf_hash(v: Vec<(String, Pod)>)
    ensures
        pod_wf(Pod::Hash(v)) <==> keys_distinct(v@) && forall|j: int|
            0 <= j < v.len() ==> #[trigger] pod_wf(v[j].1),
{
    assert(pod_wf(Pod::Hash(v)) == (keys_distinct(v@) && hash_wf(v, v.len() as nat)));
    lemma_hash_wf(v, v.len() as nat);
}

pub proof fn lemma_hash_wf(v: Vec<(String, Pod)>, n: nat)
    requires
        n <= v.len(),
    ensures
        hash_wf(v, n) <==> forall|j: int| 0 <= j < n ==> #[trigger] pod_wf(v[j].1),
    decreases n,
{
    if n > 0 {
        lemma_hash_wf(v, (n - 1) as nat);
        assert(decreases_to!(v => v[n - 1].1));
        assert(hash_wf(v, n) == (hash_wf(v, (n - 1) as nat) && pod_wf(v[n - 1].1)));
    }
}

impl View for Pod {
    type V = PodView;

    open spec fn view(&self) -> PodView {
        pod_view(*self)
    }
}

pub proof fn lemma_array_view(v: Vec<Pod>, n: nat)
    requires
        n <= v.len(),
    ensures
        array_view(v, n).len() == n,
        forall|j: int| 0 <= j < n ==> #[trigger] array_view(v, n)[j] == pod_view(v[j]),
    decreases n,
{
    if n > 0 {
        lemma_array_view(v, (n - 1) as nat);
    }
}

pub proof fn lemma_hash_view(v: Vec<(String, Pod)>, n: nat, k: Seq<char>)
    requires
        n <= v.len(),
    ensures
        hash_view(v, n).contains_key(k) <==> last_index(v@, n as int, k) >= 0,
        last_index(v@, n as int, k) < n,
        last_index(v@, n as int, k) >= 0 ==> v[last_index(v@, n as int, k)].0@ == k
            && hash_view(v, n)[k] == pod_view(v[last_index(v@, n as int, k)].1),
    decreases n,
{
    if n > 0 {
        lemma_hash_view(v, (n - 1) as nat, k);
    }
}

pub proof fn lemma_last_index_distinct(v: Seq<(String, Pod)>, n: int, j: int)
    requires
        keys_distinct(v),
        0 <= j < n <= v.len(),
    ensures
        last_index(v, n, v[j].0@) == j,
    decreases n,
{
    if n - 1 != j {
        lemma_last_index_distinct(v, n - 1, j);
    }
}

pub proof fn lemma_last_index_bounds(v: Seq<(String, Pod)>, n: int, k: Seq<char>)
    requires
        0 <= n <= v.len(),
    ensures
        -1 <= last_index(v, n, k) < n,
        last_index(v, n, k) >= 0 ==> v[last_index(v, n, k)].0@ == k,
        last_index(v, n, k) == -1 ==> forall|i: int| 0 <= i < n ==> v[i].0@ != k,
    decreases n,
{
    if n > 0 {
        lemma_last_index_bounds(v, n - 1, k);
    }
}

/// Two entry lists with the same keys and values, entry by entry, give the same map.
pub proof fn lemma_hash_view_same(a: Vec<(String, Pod)>, b: Vec<(String, Pod)>, n: nat)
    requires
        n <= a.len(),
        n <= b.len(),
        forall|i: int| 0 <= i < n ==> a[i].0@ == b[i].0@ && pod_view(a[i].1) == pod_view(b[i].1),
    ensures
        hash_view(a, n) == hash_view(b, n),
    decreases n,
{
    if n > 0 {
        lemma_hash_view_same(a, b, (n - 1) as nat);
    }
}

pub proof fn lemma_array_view_same(a: Vec<Pod>, b: Vec<Pod>)
    requires
        a.len() == b.len(),
        forall|i: int| 0 <= i < a.len() ==> pod_view(#[trigger] a[i]) == pod_view(b[i]),
    ensures
        array_view(a, a.len() as nat) == array_view(b, b.len() as nat),
{
    lemma_array_view(a, a.len() as nat);
    lemma_array_view(b, b.len() as nat);
    assert(array_view(a, a.len() as nat) =~= array_view(b, b.len() as nat));
}

/// With distinct keys, each entry's key maps to its value, and every key of the map is an entry's.
pub proof fn lemma_distinct_view(v: Vec<(String, Pod)>)
    requires
        keys_distinct(v@),
    ensures
        forall|j: int|
            0 <= j < v.len() ==> hash_view(v, v.len() as nat).contains_key(#[trigger] v[j].0@)
                && hash_view(v, v.len() as nat)[v[j].0@] == pod_view(v[j].1),
        forall|k: Seq<char>|
            #[trigger] hash_view(v, v.len() as nat).contains_key(k) ==> exists|j: int|
                0 <= j < v.len() && v[j].0@ == k,
{
    let n = v.len() as nat;
    assert forall|j: int| 0 <= j < v.len() implies hash_view(v, n).contains_key(
        #[trigger] v[j].0@,
    ) && hash_view(v, n)[v[j].0@] == pod_view(v[j].1) by {
        lemma_last_index_distinct(v@, n as int, j);
        lemma_hash_view(v, n, v[j].0@);
    }
    assert forall|k: Seq<char>| #[trigger] hash_view(v, n).contains_key(k) implies exists|j: int|
        0 <= j < v.len() && v[j].0@ == k by {
        lemma_hash_view(v, n, k);
        let j = last_index(v@, n as int, k);
        assert(0 <= j < v.len() && v[j].0@ == k);
    }
}

pub proof fn lemma_hash_view_len(v: Vec<(String, Pod)>, n: nat)
    requires
        keys_distinct(v@),
        n <= v.len(),
    ensures
        hash_view(v, n).dom().finite(),
        hash_view(v, n).dom().len() == n,
    decreases n,
{
    if n > 0 {
        lemma_hash_view_len(v, (n - 1) as nat);
        let k = v[n - 1].0@;
        lemma_hash_view(v, (n - 1) as nat, k);
        lemma_last_index_bounds(v@, n - 1, k);
    }
}

/// Copies of the elements of `v`.
fn clone_array(v: &Vec<Pod>) -> (r: Vec<Pod>)
    ensures
        r.len() == v.len(),
        forall|j: int|
            0 <= j < v.len() ==> pod_view(#[trigger] r[j]) == pod_view(v[j]) && (pod_wf(v[j])
                ==> pod_wf(r[j])),
    decreases v, 0nat,
{
    let mut out: Vec<Pod> = Vec::new();
    let mut i: usize = 0;
    while i < v.len()
        invariant
            i <= v.len(),
            out.len() == i,
            forall|j: int|
                0 <= j < i ==> pod_view(#[trigger] out[j]) == pod_view(v[j]) && (pod_wf(v[j])
                    ==> pod_wf(out[j])),
        decreases v.len() - i,
    {
        proof {
            assert(decreases_to!(*v => v[i as int]));
        }
        let c = v[i].clone_pod();
        out.push(c);
        i = i + 1;
    }
    out
}

/// Copies of the entries of `v`.
fn clone_entries(v: &Vec<(String, Pod)>) -> (r: Vec<(String, Pod)>)
    ensures
        r.len() == v.len(),
        forall|j: int|
            0 <= j < v.len() ==> (#[trigger] r[j]).0@ == v[j].0@ && pod_view(r[j].1) == pod_view(
                v[j].1,
            ) && (pod_wf(v[j].1) ==> pod_wf(r[j].1)),
    decreases v, 0nat,
{
    let mut out: Vec<(String, Pod)> = Vec::new();
    let mut i: usize = 0;
    while i < v.len()
        invariant
            i <= v.len(),
            out.len() == i,
            forall|j: int|
                0 <= j < i ==> (#[trigger] out[j]).0@ == v[j].0@ && pod_view(out[j].1) == pod_view(
                    v[j].1,
                ) && (pod_wf(v[j].1) ==> pod_wf(out[j].1)),
        decreases v.len() - i,
    {
        proof {
            assert(decreases_to!(*v => v[i as int].1));
        }
        let c = v[i].1.clone_pod();
        out.push((v[i].0.clone(), c));
        i = i + 1;
    }
    out
}

impl Pod {
    /// Keys of every mapping in the value are distinct.
    pub open spec fn wf(&self) -> bool {
        pod_wf(*self)
    }

    /// A copy of the value, mapping entries in the same order.
    pub fn clone_pod(&self) -> (r: Pod)
        ensures
            r@ == self@,
            self.wf() ==> r.wf(),
        decreases self, 1nat,
    {
        match self {
            Pod::Null => Pod::Null,
            Pod::String(s) => Pod::String(s.clone()),
            Pod::Integer(i) => Pod::Integer(*i),
            Pod::Float(b) => Pod::Float(*b),
            Pod::Boolean(b) => Pod::Boolean(*b),
            Pod::Array(v) => {
                let out = clone_array(v);
                proof {
                    lemma_array_view_same(out, *v);
                    lemma_wf_array(out);
                    lemma_wf_array(*v);
                }
                Pod::Array(out)
            },
            Pod::Hash(v) => {
                let out = clone_entries(v);
                proof {
                    assert forall|j: int| 0 <= j < v.len() implies out[j].0@ == v[j].0@ && pod_view(
                        out[j].1,
                    ) == pod_view(v[j].1) by {
                        assert(out[j].0@ == v[j].0@);
                    }
                    lemma_hash_view_same(out, *v, v.len() as nat);
                    lemma_wf_hash(out);
                    lemma_wf_hash(*v);
                    if self.wf() {
                        assert forall|a: int, b: int|
                            0 <= a < out.len() && 0 <= b < out.len() && a != b implies out@[a].0@
                            != out@[b].0@ by {
                            assert(out[a].0@ == v[a].0@);
                            assert(out[b].0@ == v[b].0@);
                        }
                        assert forall|j: int| 0 <= j < out.len() implies #[trigger] pod_wf(
                            out[j].1,
                        ) by {
                            assert(out[j].0@ == v[j].0@);
                        }
                    }
                }
                Pod::Hash(out)
            },
        }
    }

    pub fn new_array() -> (r: Pod)
        ensures
            r@ == PodView::Array(Seq::empty()),
            r.wf(),
    {
        let v: Vec<Pod> = Vec::new();
        proof {
            lemma_wf_array(v);
            lemma_array_view(v, 0);
            assert(array_view(v, 0) =~= Seq::<PodView>::empty());
        }
        Pod::Array(v)
    }

    pub fn new_hash() -> (r: Pod)
        ensures
            r@ == PodView::Hash(Map::empty()),
            r.wf(),
    {
        let v: Vec<(String, Pod)> = Vec::new();
        proof {
            lemma_wf_hash(v);
            assert(hash_view(v, 0) =~= Map::<Seq<char>, PodView>::empty());
        }
        Pod::Hash(v)
    }

    /// Appends `value` to an array; any other value is left as it is and gives a type error.
    pub fn push(&mut self, value: Pod) -> (r: Result<(), Error>)
        requires
            old(self).wf(),
            value.wf(),
        ensures
            final(self).wf(),
            match old(self)@ {
                PodView::Array(a) => r is Ok && final(self)@ == PodView::Array(a.push(value@)),
                _ => r matches Err(Error::TypeError(t)) && t@ == "Array"@ && *final(self) == *old(
                    self,
                ),
            },
    {
        let mut cur = Pod::Null;
        std::mem::swap(self, &mut cur);
        match cur {
            Pod::Array(v) => {
                let mut v = v;
                let ghost v0 = v;
                proof {
                    lemma_wf_array(v0);
                    lemma_array_view(v0, v0.len() as nat);
                }
                v.push(value);
                proof {
                    lemma_array_view(v, v.len() as nat);
                    assert(array_view(v, v.len() as nat) =~= array_view(v0, v0.len() as nat).push(
                        value@,
                    ));
                    lemma_wf_array(v);
                }
                *self = Pod::Array(v);
                Ok(())
            },
            other => {
                *self = other;
                Err(Error::type_error("Array"))
            },
        }
    }

    /// Removes and returns the last element of an array; `Null` for an empty array or any other
    /// value, which is left as it is.
    pub fn pop(&mut self) -> (r: Pod)
        requires
            old(self).wf(),
        ensures
            final(self).wf(),
            r.wf(),
            match old(self)@ {
                PodView::Array(a) => if a.len() > 0 {
                    r@ == a.last() && final(self)@ == PodView::Array(a.drop_last())
                } else {
                    r is Null && *final(self) == *old(self)
                },
                _ => r is Null && *final(self) == *old(self),
            },
    {
        let mut cur = Pod::Null;
        std::mem::swap(self, &mut cur);
        match cur {
            Pod::Array(v) => {
                let mut v = v;
                let ghost v0 = v;
                proof {
                    lemma_wf_array(v0);
                    lemma_array_view(v0, v0.len() as nat);
                }
                if v.len() == 0 {
                    *self = Pod::Array(v);
                    return Pod::Null;
                }
                let last = v.pop().unwrap();
                proof {
                    lemma_array_view(v, v.len() as nat);
                    assert(array_view(v, v.len() as nat) =~= array_view(
                        v0,
                        v0.len() as nat,
                    ).drop_last());
                    lemma_wf_array(v);
                    assert(last == v0[v0.len() - 1]);
                }
                *self = Pod::Array(v);
                last
            },
            other => {
                *self = other;
                Pod::Null
            },
        }
    }

    /// Sets `key` to `val` in a mapping; any other value is left as it is and gives a type error.
    pub fn insert(&mut self, key: String, val: Pod) -> (r: Result<(), Error>)
        requires
            old(self).wf(),
            val.wf(),
        ensures
            final(self).wf(),
            match old(self)@ {
                PodView::Hash(m) => r is Ok && final(self)@ == PodView::Hash(m.insert(key@, val@)),
                _ => r matches Err(Error::TypeError(t)) && t@ == "Hash"@ && *final(self) == *old(
                    self,
                ),
            },
    {
        let mut cur = Pod::Null;
        std::mem::swap(self, &mut cur);
        match cur {
            Pod::Hash(v) => {
                let mut v = v;
                proof {
                    lemma_wf_hash(v);
                }
                put_entry(&mut v, key, val);
                *self = Pod::Hash(v);
                Ok(())
            },
            other => {
                *self = other;
                Err(Error::type_error("Hash"))
            },
        }
    }

    /// Removes `key` from a mapping and returns its value; `Null` where the key is absent or the
    /// value is not a mapping, which is then left as it is.
    pub fn remove(&mut self, key: String) -> (r: Pod)
        requires
            old(self).wf(),
        ensures
            final(self).wf(),
            r.wf(),
            match old(self)@ {
                PodView::Hash(m) => if m.contains_key(key@) {
                    r@ == m[key@] && final(self)@ == PodView::Hash(m.remove(key@))
                } else {
                    r is Null && *final(self) == *old(self)
                },
                _ => r is Null && *final(self) == *old(self),
            },
    {
        let mut cur = Pod::Null;
        std::mem::swap(self, &mut cur);
        match cur {
            Pod::Hash(v) => {
                let mut v = v;
                let ghost v0 = v;
                proof {
                    lemma_wf_hash(v0);
                    lemma_distinct_view(v0);
                }
                match find_key(&v, &key) {
                    Some(j) => {
                        let e = v.remove(j);
                        proof {
                            lemma_remove_entry(v0, j as int);
                            assert(hash_view(v, v.len() as nat) == hash_view(
                                v0,
                                v0.len() as nat,
                            ).remove(v0[j as int].0@));
                            lemma_wf_hash(v);
                            assert(e == v0[j as int]);
                            assert(pod_wf(v0[j as int].1));
                        }
                        *self = Pod::Hash(v);
                        e.1
                    },
                    None => {
                        proof {
                            if hash_view(v0, v0.len() as nat).contains_key(key@) {
                                let i = choose|i: int| 0 <= i < v0.len() && v0[i].0@ == key@;
                            }
                        }
                        *self = Pod::Hash(v);
                        Pod::Null
                    },
                }
            },
            other => {
                *self = other;
                Pod::Null
            },
        }
    }

    /// Returns the value, leaving `Null` in its place.
    pub fn take(&mut self) -> (r: Pod)
        ensures
            r == *old(self),
            *final(self) == Pod::Null,
    {
        let mut cur = Pod::Null;
        std::mem::swap(self, &mut cur);
        cur
    }

    /// The number of elements of an array or of entries of a mapping; 0 for any other value.
    pub fn len(&self) -> (r: usize)
        requires
            self.wf(),
        ensures
            r == match self@ {
                PodView::Array(a) => a.len(),
                PodView::Hash(m) => m.dom().len(),
                _ => 0,
            },
    {
        match self {
            Pod::Array(v) => {
                proof {
                    lemma_array_view(*v, v.len() as nat);
                }
                v.len()
            },
            Pod::Hash(v) => {
                proof {
                    lemma_wf_hash(*v);
                    lemma_hash_view_len(*v, v.len() as nat);
                }
                v.len()
            },
            _ => 0,
        }
    }

    pub fn is_empty(&self) -> (r: bool)
        requires
            self.wf(),
        ensures
            r == (match self@ {
                PodView::Array(a) => a.len(),
                PodView::Hash(m) => m.dom().len(),
                _ => 0,
            } == 0),
    {
        self.len() == 0
    }

    pub fn as_string(&self) -> (r: Result<String, Error>)
        ensures
            match self@ {
                PodView::Str(s) => r matches Ok(t) && t@ == s,
                _ => r matches Err(Error::TypeError(t)) && t@ == "String"@,
            },
    {
        match self {
            Pod::String(s) => Ok(s.clone()),
            _ => Err(Error::type_error("String")),
        }
    }

    pub fn as_i64(&self) -> (r: Result<i64, Error>)
        ensures
            match self@ {
                PodView::Integer(i) => r == Ok::<i64, Error>(i),
                _ => r matches Err(Error::TypeError(t)) && t@ == "Integer"@,
            },
    {
        match self {
            Pod::Integer(i) => Ok(*i),
            _ => Err(Error::type_error("Integer")),
        }
    }

    /// The bit pattern of a stored float.
    pub fn as_f64(&self) -> (r: Result<u64, Error>)
        ensures
            match self@ {
                PodView::Float(b) => r == Ok::<u64, Error>(b),
                _ => r matches Err(Error::TypeError(t)) && t@ == "Float"@,
            },
    {
        match self {
            Pod::Float(b) => Ok(*b),
            _ => Err(Error::type_error("Float")),
        }
    }

    pub fn as_bool(&self) -> (r: Result<bool, Error>)
        ensures
            match self@ {
                PodView::Boolean(b) => r == Ok::<bool, Error>(b),
                _ => r matches Err(Error::TypeError(t)) && t@ == "Boolean"@,
            },
    {
        match self {
            Pod::Boolean(b) => Ok(*b),
            _ => Err(Error::type_error("Boolean")),
        }
    }

    /// A copy of the elements of an array.
    pub fn as_vec(&self) -> (r: Result<Vec<Pod>, Error>)
        ensures
            self@ is Array <==> r is Ok,
            r matches Ok(v) ==> Pod::Array(v)@ == self@,
            !(self@ is Array) ==> (r matches Err(Error::TypeError(t)) && t@ == "Array"@),
    {
        match self {
            Pod::Array(v) => {
                let out = clone_array(v);
                proof {
                    lemma_array_view_same(out, *v);
                }
                Ok(out)
            },
            _ => Err(Error::type_error("Array")),
        }
    }

    /// A copy of the entries of a mapping.
    pub fn as_hashmap(&self) -> (r: Result<Vec<(String, Pod)>, Error>)
        ensures
            self@ is Hash <==> r is Ok,
            r matches Ok(v) ==> Pod::Hash(v)@ == self@,
            !(self@ is Hash) ==> (r matches Err(Error::TypeError(t)) && t@ == "Hash"@),
    {
        match self {
            Pod::Hash(v) => {
                let out = clone_entries(v);
                proof {
                    assert forall|j: int| 0 <= j < v.len() implies out[j].0@ == v[j].0@ && pod_view(
                        out[j].1,
                    ) == pod_view(v[j].1) by {
                        assert(out[j].0@ == v[j].0@);
                    }
                    lemma_hash_view_same(out, *v, v.len() as nat);
                }
                Ok(out)
            },
            _ => Err(Error::type_error("Hash")),
        }
    }
}

/// `a` with `x` at index `i`, padded with `Null` up to `i` where it is too short.
pub open spec fn set_index(a: Seq<PodView>, i: int, x: PodView) -> Seq<PodView> {
    if i < a.len() {
        a.update(i, x)
    } else {
        a + Seq::new((i - a.len()) as nat, |_j: int| PodView::Null) + seq![x]
    }
}

impl Pod {
    /// The element at `index` of an array; `Null` past its end or for any other value.
    pub fn at(&self, index: usize) -> (r: Pod)
        ensures
            r@ == match self@ {
                PodView::Array(a) => if index < a.len() {
                    a[index as int]
                } else {
                    PodView::Null
                },
                _ => PodView::Null,
            },
            self.wf() ==> r.wf(),
    {
        match self {
            Pod::Array(v) => {
                proof {
                    lemma_array_view(*v, v.len() as nat);
                    lemma_wf_array(*v);
                }
                if index < v.len() {
                    v[index].clone_pod()
                } else {
                    Pod::Null
                }
            },
            _ => Pod::Null,
        }
    }

    /// The value of `key` in a mapping; `Null` where the key is absent or for any other value.
    pub fn get(&self, key: &str) -> (r: Pod)
        requires
            self.wf(),
        ensures
            r@ == match self@ {
                PodView::Hash(m) => if m.contains_key(key@) {
                    m[key@]
                } else {
                    PodView::Null
                },
                _ => PodView::Null,
            },
            r.wf(),
    {
        match self {
            Pod::Hash(v) => {
                proof {
                    lemma_wf_hash(*v);
                    lemma_distinct_view(*v);
                }
                let k = key.to_owned();
                match find_key(v, &k) {
                    Some(j) => v[j].1.clone_pod(),
                    None => {
                        proof {
                            if hash_view(*v, v.len() as nat).contains_key(key@) {
                                let i = choose|i: int| 0 <= i < v.len() && v[i].0@ == key@;
                            }
                        }
                        Pod::Null
                    },
                }
            },
            _ => Pod::Null,
        }
    }

    /// Stores `value` at `index`; a value that is not an array first becomes an empty one, and an
    /// array too short is padded with `Null`.
    pub fn set_at(&mut self, index: usize, value: Pod)
        requires
            old(self).wf(),
            value.wf(),
        ensures
            final(self).wf(),
            final(self)@ == PodView::Array(
                set_index(
                    match old(self)@ {
                        PodView::Array(a) => a,
                        _ => Seq::empty(),
                    },
                    index as int,
                    value@,
                ),
            ),
    {
        let mut cur = Pod::Null;
        std::mem::swap(self, &mut cur);
        let mut v: Vec<Pod> = match cur {
            Pod::Array(v) => v,
            _ => Vec::new(),
        };
        let ghost v0 = v;
        let ghost base = array_view(v0, v0.len() as nat);
        proof {
            lemma_array_view(v0, v0.len() as nat);
            lemma_wf_array(v0);
            if !(old(self)@ is Array) {
                assert(base =~= Seq::<PodView>::empty());
            }
        }
        if index < v.len() {
            v.set(index, value);
        } else {
            while v.len() < index
                invariant
                    v0.len() <= v.len() <= index,
                    forall|j: int| 0 <= j < v0.len() ==> v[j] == v0[j],
                    forall|j: int| v0.len() <= j < v.len() ==> v[j] == Pod::Null,
                decreases index - v.len(),
            {
                v.push(Pod::Null);
            }
            v.push(value);
        }
        proof {
            lemma_array_view(v, v.len() as nat);
            lemma_wf_array(v);
            assert(array_view(v, v.len() as nat) =~= set_index(base, index as int, value@));
        }
        *self = Pod::Array(v);
    }

    /// Sets `key` to `value`; a value that is not a mapping first becomes an empty one.
    pub fn set(&mut self, key: &str, value: Pod)
        requires
            old(self).wf(),
            value.wf(),
        ensures
            final(self).wf(),
            final(self)@ == PodView::Hash(
                match old(self)@ {
                    PodView::Hash(m) => m,
                    _ => Map::empty(),
                }.insert(key@, value@),
            ),
    {
        let mut cur = Pod::Null;
        std::mem::swap(self, &mut cur);
        let mut v: Vec<(String, Pod)> = match cur {
            Pod::Hash(v) => v,
            _ => Vec::new(),
        };
        proof {
            lemma_wf_hash(v);
            if !(old(self)@ is Hash) {
                assert(hash_view(v, 0) =~= Map::<Seq<char>, PodView>::empty());
            }
        }
        put_entry(&mut v, key.to_owned(), value);
        *self = Pod::Hash(v);
    }
}

/// Whether the first `n` elements of `v` are well formed.
fn array_is_wf(v: &Vec<Pod>) -> (r: bool)
    ensures
        r == (forall|j: int| 0 <= j < v.len() ==> #[trigger] pod_wf(v[j])),
    decreases v, 0nat,
{
    let mut i: usize = 0;
    while i < v.len()
        invariant
            i <= v.len(),
            forall|j: int| 0 <= j < i ==> #[trigger] pod_wf(v[j]),
        decreases v.len() - i,
    {
        proof {
            assert(decreases_to!(*v => v[i as int]));
        }
        if !v[i].is_wf() {
            return false;
        }
        i = i + 1;
    }
    true
}

fn entries_are_wf(v: &Vec<(String, Pod)>) -> (r: bool)
    ensures
        r == (keys_distinct(v@) && forall|j: int| 0 <= j < v.len() ==> #[trigger] pod_wf(v[j].1)),
    decreases v, 0nat,
{
    let mut i: usize = 0;
    while i < v.len()
        invariant
            i <= v.len(),
            forall|a: int, b: int| 0 <= a < i && 0 <= b < v.len() && a != b ==> v@[a].0@ != v@[b].0@,
            forall|j: int| 0 <= j < i ==> #[trigger] pod_wf(v[j].1),
        decreases v.len() - i,
    {
        let mut j: usize = 0;
        while j < v.len()
            invariant
                i < v.len(),
                j <= v.len(),
                forall|b: int| 0 <= b < j && b != i ==> v@[i as int].0@ != v@[b].0@,
            decreases v.len() - j,
        {
            if j != i && v[i].0 == v[j].0 {
                return false;
            }
            j = j + 1;
        }
        proof {
            assert(decreases_to!(*v => v[i as int].1));
        }
        if !v[i].1.is_wf() {
            return false;
        }
        i = i + 1;
    }
    true
}

impl Pod {
    /// Whether the keys of every mapping in the value are distinct.
    pub fn is_wf(&self) -> (r: bool)
        ensures
            r == self.wf(),
        decreases self, 1nat,
    {
        match self {
            Pod::Array(v) => {
                proof {
                    lemma_wf_array(*v);
                }
                array_is_wf(v)
            },
            Pod::Hash(v) => {
                proof {
                    lemma_wf_hash(*v);
                }
                entries_are_wf(v)
            },
            _ => true,
        }
    }
}

/// Index of the last entry of `v` with key `key`, if any.
fn find_last(v: &Vec<(String, Pod)>, key: &String) -> (r: Option<usize>)
    ensures
        last_index(v@, v.len() as int, key@) >= 0 ==> r == Some(
            last_index(v@, v.len() as int, key@) as usize,
        ),
        last_index(v@, v.len() as int, key@) < 0 ==> r is None,
{
    let mut i: usize = v.len();
    while i > 0
        invariant
            i <= v.len(),
            last_index(v@, v.len() as int, key@) == last_index(v@, i as int, key@),
        decreases i,
    {
        if v[i - 1].0 == *key {
            return Some(i - 1);
        }
        i = i - 1;
    }
    None
}

proof fn lemma_last_index_at_least(v: Seq<(String, Pod)>, n: int, i: int)
    requires
        0 <= i < n <= v.len(),
    ensures
        last_index(v, n, v[i].0@) >= i,
    decreases n,
{
    if n - 1 != i && v[n - 1].0@ != v[i].0@ {
        lemma_last_index_at_least(v, n - 1, i);
    }
}

/// The view of a value has the value's own kind.
pub proof fn lemma_view_kind(p: Pod)
    ensures
        (p is Null) == (p@ is Null),
        (p is String) == (p@ is Str),
        (p is Integer) == (p@ is Integer),
        (p is Float) == (p@ is Float),
        (p is Boolean) == (p@ is Boolean),
        (p is Array) == (p@ is Array),
        (p is Hash) == (p@ is Hash),
{
    match p {
        Pod::Array(v) => assert(p@ == PodView::Array(array_view(v, v.len() as nat))),
        Pod::Hash(v) => assert(p@ == PodView::Hash(hash_view(v, v.len() as nat))),
        _ => {},
    }
}

/// Deep equality of two values, mappings compared as maps.
fn pod_eq(a: &Pod, b: &Pod) -> (r: bool)
    ensures
        r == (a@ == b@),
    decreases a, 1nat,
{
    proof {
        lemma_view_kind(*a);
        lemma_view_kind(*b);
    }
    match a {
        Pod::Null => match b {
            Pod::Null => true,
            _ => false,
        },
        Pod::String(x) => match b {
            Pod::String(y) => *x == *y,
            _ => false,
        },
        Pod::Integer(x) => match b {
            Pod::Integer(y) => *x == *y,
            _ => false,
        },
        Pod::Float(x) => match b {
            Pod::Float(y) => *x == *y,
            _ => false,
        },
        Pod::Boolean(x) => match b {
            Pod::Boolean(y) => *x == *y,
            _ => false,
        },
        Pod::Array(x) => match b {
            Pod::Array(y) => {
                assert(a@ == PodView::Array(array_view(*x, x.len() as nat)));
                assert(b@ == PodView::Array(array_view(*y, y.len() as nat)));
                arrays_eq(x, y)
            },
            _ => false,
        },
        Pod::Hash(x) => match b {
            Pod::Hash(y) => {
                assert(a@ == PodView::Hash(hash_view(*x, x.len() as nat)));
                assert(b@ == PodView::Hash(hash_view(*y, y.len() as nat)));
                hashes_eq(x, y)
            },
            _ => false,
        },
    }
}

fn arrays_eq(x: &Vec<Pod>, y: &Vec<Pod>) -> (r: bool)
    ensures
        r == (array_view(*x, x.len() as nat) == array_view(*y, y.len() as nat)),
    decreases x, 0nat,
{
    proof {
        lemma_array_view(*x, x.len() as nat);
        lemma_array_view(*y, y.len() as nat);
    }
    if x.len() != y.len() {
        return false;
    }
    let mut i: usize = 0;
    while i < x.len()
        invariant
            x.len() == y.len(),
            i <= x.len(),
            forall|j: int| 0 <= j < i ==> pod_view(#[trigger] x[j]) == pod_view(y[j]),
        decreases x.len() - i,
    {
        proof {
            assert(decreases_to!(*x => x[i as int]));
        }
        if !pod_eq(&x[i], &y[i]) {
            proof {
                lemma_array_view(*x, x.len() as nat);
                lemma_array_view(*y, y.len() as nat);
                assert(array_view(*x, x.len() as nat)[i as int] != array_view(
                    *y,
                    y.len() as nat,
                )[i as int]);
            }
            return false;
        }
        i = i + 1;
    }
    proof {
        lemma_array_view_same(*x, *y);
    }
    true
}

fn hashes_eq(x: &Vec<(String, Pod)>, y: &Vec<(String, Pod)>) -> (r: bool)
    ensures
        r == (hash_view(*x, x.len() as nat) == hash_view(*y, y.len() as nat)),
    decreases x, 0nat,
{
    let ghost mx = hash_view(*x, x.len() as nat);
    let ghost my = hash_view(*y, y.len() as nat);
    let mut i: usize = 0;
    while i < x.len()
        invariant
            i <= x.len(),
            mx == hash_view(*x, x.len() as nat),
            my == hash_view(*y, y.len() as nat),
            forall|j: int|
                0 <= j < i ==> mx.contains_key(#[trigger] x[j].0@) && my.contains_key(x[j].0@)
                    && mx[x[j].0@] == my[x[j].0@],
        decreases x.len() - i,
    {
        let ghost k = x[i as int].0@;
        proof {
            lemma_last_index_at_least(x@, x.len() as int, i as int);
            lemma_hash_view(*x, x.len() as nat, k);
            lemma_hash_view(*y, y.len() as nat, k);
        }
        let ja = find_last(x, &x[i].0).unwrap();
        match find_last(y, &x[i].0) {
            None => {
                return false;
            },
            Some(jb) => {
                proof {
                    assert(decreases_to!(*x => x[ja as int].1));
                }
                if !pod_eq(&x[ja].1, &y[jb].1) {
                    return false;
                }
            },
        }
        i = i + 1;
    }
    let mut i: usize = 0;
    while i < y.len()
        invariant
            i <= y.len(),
            mx == hash_view(*x, x.len() as nat),
            my == hash_view(*y, y.len() as nat),
            forall|j: int|
                0 <= j < x.len() ==> mx.contains_key(#[trigger] x[j].0@) && my.contains_key(x[j].0@)
                    && mx[x[j].0@] == my[x[j].0@],
            forall|j: int| 0 <= j < i ==> mx.contains_key(#[trigger] y[j].0@),
        decreases y.len() - i,
    {
        let ghost k = y[i as int].0@;
        proof {
            lemma_last_index_at_least(y@, y.len() as int, i as int);
            lemma_hash_view(*x, x.len() as nat, k);
            lemma_hash_view(*y, y.len() as nat, k);
        }
        if find_last(x, &y[i].0).is_none() {
            return false;
        }
        i = i + 1;
    }
    proof {
        assert forall|k: Seq<char>| mx.contains_key(k) <==> my.contains_key(k) by {
            lemma_hash_view(*x, x.len() as nat, k);
            lemma_hash_view(*y, y.len() as nat, k);
            if mx.contains_key(k) {
                let j = last_index(x@, x.len() as int, k);
                assert(x[j].0@ == k);
            }
            if my.contains_key(k) {
                let j = last_index(y@, y.len() as int, k);
                assert(y[j].0@ == k);
            }
        }
        assert forall|k: Seq<char>| mx.contains_key(k) implies mx[k] == my[k] by {
            lemma_hash_view(*x, x.len() as nat, k);
            let j = last_index(x@, x.len() as int, k);
            assert(x[j].0@ == k);
        }
        assert(mx =~= my);
    }
    true
}

impl From<String> for Pod {
    fn from(v: String) -> (r: Pod) {
        Pod::String(v)
    }
}

impl vstd::std_specs::convert::FromSpecImpl<String> for Pod {
    open spec fn obeys_from_spec() -> bool {
        true
    }

    open spec fn from_spec(v: String) -> Pod {
        Pod::String(v)
    }
}

impl From<i64> for Pod {
    fn from(v: i64) -> (r: Pod) {
        Pod::Integer(v)
    }
}

impl vstd::std_specs::convert::FromSpecImpl<i64> for Pod {
    open spec fn obeys_from_spec() -> bool {
        true
    }

    open spec fn from_spec(v: i64) -> Pod {
        Pod::Integer(v)
    }
}

impl From<bool> for Pod {
    fn from(v: bool) -> (r: Pod) {
        Pod::Boolean(v)
    }
}

impl vstd::std_specs::convert::FromSpecImpl<bool> for Pod {
    open spec fn obeys_from_spec() -> bool {
        true
    }

    open spec fn from_spec(v: bool) -> Pod {
        Pod::Boolean(v)
    }
}

impl From<Vec<Pod>> for Pod {
    fn from(v: Vec<Pod>) -> (r: Pod) {
        Pod::Array(v)
    }
}

impl vstd::std_specs::convert::FromSpecImpl<Vec<Pod>> for Pod {
    open spec fn obeys_from_spec() -> bool {
        true
    }

    open spec fn from_spec(v: Vec<Pod>) -> Pod {
        Pod::Array(v)
    }
}

impl From<Vec<(String, Pod)>> for Pod {
    fn from(v: Vec<(String, Pod)>) -> (r: Pod) {
        Pod::Hash(v)
    }
}

impl vstd::std_specs::convert::FromSpecImpl<Vec<(String, Pod)>> for Pod {
    open spec fn obeys_from_spec() -> bool {
        true
    }

    open spec fn from_spec(v: Vec<(String, Pod)>) -> Pod {
        Pod::Hash(v)
    }
}

impl Clone for Pod {
    fn clone(&self) -> (r: Self)
        ensures
            r@ == self@,
    {
        self.clone_pod()
    }
}

impl PartialEq for Pod {
    fn eq(&self, other: &Pod) -> (r: bool) {
        pod_eq(self, other)
    }
}

impl vstd::std_specs::cmp::PartialEqSpecImpl for Pod {
    open spec fn obeys_eq_spec() -> bool {
        true
    }

    open spec fn eq_spec(&self, other: &Pod) -> bool {
        self@ == other@
    }
}

/// Index of the entry of `v` with key `key`, if any.
fn find_key(v: &Vec<(String, Pod)>, key: &String) -> (r: Option<usize>)
    ensures
        r matches Some(j) ==> j < v.len() && v[j as int].0@ == key@,
        r is None ==> forall|j: int| 0 <= j < v.len() ==> v[j].0@ != key@,
{
    let mut i: usize = 0;
    while i < v.len()
        invariant
            i <= v.len(),
            forall|j: int| 0 <= j < i ==> v[j].0@ != key@,
        decreases v.len() - i,
    {
        if v[i].0 == *key {
            return Some(i);
        }
        i = i + 1;
    }
    None
}

proof fn lemma_remove_entry(v: Vec<(String, Pod)>, j: int)
    requires
        keys_distinct(v@),
        forall|i: int| 0 <= i < v.len() ==> #[trigger] pod_wf(v[i].1),
        0 <= j < v.len(),
    ensures
        keys_distinct(v@.remove(j)),
        forall|i: int| 0 <= i < v@.remove(j).len() ==> #[trigger] pod_wf(v@.remove(j)[i].1),
        forall|w: Vec<(String, Pod)>|
            w@ == v@.remove(j) ==> #[trigger] hash_view(w, w.len() as nat) == hash_view(
                v,
                v.len() as nat,
            ).remove(v[j].0@),
{
    let r = v@.remove(j);
    assert forall|a: int, b: int| 0 <= a < r.len() && 0 <= b < r.len() && a != b implies r[a].0@
        != r[b].0@ by {
        let a1 = if a < j { a } else { a + 1 };
        let b1 = if b < j { b } else { b + 1 };
        assert(r[a] == v@[a1]);
        assert(r[b] == v@[b1]);
    }
    assert forall|i: int| 0 <= i < r.len() implies #[trigger] pod_wf(r[i].1) by {
        let i1 = if i < j { i } else { i + 1 };
        assert(r[i] == v@[i1]);
    }
    lemma_distinct_view(v);
    assert forall|w: Vec<(String, Pod)>| w@ == v@.remove(j) implies #[trigger] hash_view(
        w,
        w.len() as nat,
    ) == hash_view(v, v.len() as nat).remove(v[j].0@) by {
        lemma_distinct_view(w);
        let mw = hash_view(w, w.len() as nat);
        let mv = hash_view(v, v.len() as nat).remove(v[j].0@);
        assert forall|k: Seq<char>| mw.contains_key(k) <==> mv.contains_key(k) by {
            if mw.contains_key(k) {
                let i = choose|i: int| 0 <= i < w.len() && w[i].0@ == k;
                let i1 = if i < j { i } else { i + 1 };
                assert(w[i] == v@[i1]);
                assert(hash_view(v, v.len() as nat).contains_key(v[i1].0@));
            }
            if mv.contains_key(k) {
                let i1 = choose|i: int| 0 <= i < v.len() && v[i].0@ == k;
                assert(i1 != j);
                let i = if i1 < j { i1 } else { i1 - 1 };
                assert(w[i] == v@[i1]);
                assert(mw.contains_key(w[i].0@));
            }
        }
        assert forall|k: Seq<char>| mw.contains_key(k) implies mw[k] == mv[k] by {
            let i = choose|i: int| 0 <= i < w.len() && w[i].0@ == k;
            let i1 = if i < j { i } else { i + 1 };
            assert(w[i] == v@[i1]);
            assert(mw[w[i].0@] == pod_view(w[i].1));
            assert(hash_view(v, v.len() as nat)[v[i1].0@] == pod_view(v[i1].1));
        }
        assert(mw =~= mv);
    }
}

/// Sets `key` to `val` among the entries `v`, which keep distinct keys.
fn put_entry(v: &mut Vec<(String, Pod)>, key: String, val: Pod)
    requires
        keys_distinct(old(v)@),
        forall|i: int| 0 <= i < old(v).len() ==> #[trigger] pod_wf(old(v)[i].1),
        val.wf(),
    ensures
        pod_wf(Pod::Hash(*final(v))),
        hash_view(*final(v), final(v).len() as nat) == hash_view(*old(v), old(v).len() as nat).insert(
            key@,
            val@,
        ),
{
    let ghost v0 = *v;
    let ghost k = key@;
    let ghost x = val@;
    proof {
        lemma_distinct_view(v0);
    }
    let ghost mut at: int = 0;
    match find_key(v, &key) {
        Some(j) => {
            v.set(j, (key, val));
            proof {
                at = j as int;
            }
        },
        None => {
            v.push((key, val));
            proof {
                at = v0.len() as int;
            }
        },
    }
    proof {
        let w = *v;
        assert(0 <= at < w.len() && w[at].0@ == k && pod_view(w[at].1) == x);
        assert forall|a: int, b: int| 0 <= a < w.len() && 0 <= b < w.len() && a != b implies w@[a].0@
            != w@[b].0@ by {
            if a < v0.len() && b < v0.len() {
                if a != b && w@[a] != v0@[a] {
                    assert(v0@[b] == w@[b]);
                }
                if a != b && w@[b] != v0@[b] {
                    assert(v0@[a] == w@[a]);
                }
            }
        }
        assert forall|i: int| 0 <= i < w.len() implies #[trigger] pod_wf(w[i].1) by {
            if i < v0.len() && w@[i] == v0@[i] {
                assert(pod_wf(v0[i].1));
            }
        }
        lemma_wf_hash(w);
        lemma_distinct_view(w);
        let mw = hash_view(w, w.len() as nat);
        let mv = hash_view(v0, v0.len() as nat).insert(k, x);
        assert forall|q: Seq<char>| mw.contains_key(q) <==> mv.contains_key(q) by {
            if mw.contains_key(q) {
                let i = choose|i: int| 0 <= i < w.len() && w[i].0@ == q;
                if q != k {
                    assert(w@[i] == v0@[i]);
                    assert(hash_view(v0, v0.len() as nat).contains_key(v0[i].0@));
                }
            }
            if mv.contains_key(q) {
                if q == k {
                    assert(mw.contains_key(w[at].0@));
                } else {
                    let i = choose|i: int| 0 <= i < v0.len() && v0[i].0@ == q;
                    assert(w@[i] == v0@[i]);
                    assert(mw.contains_key(w[i].0@));
                }
            }
        }
        assert forall|q: Seq<char>| mw.contains_key(q) implies mw[q] == mv[q] by {
            let i = choose|i: int| 0 <= i < w.len() && w[i].0@ == q;
            assert(mw[w[i].0@] == pod_view(w[i].1));
            if q != k {
                assert(w@[i] == v0@[i]);
                assert(hash_view(v0, v0.len() as nat)[v0[i].0@] == pod_view(v0[i].1));
            }
        }
        assert(mw =~= mv);
    }
}

} // verus!
