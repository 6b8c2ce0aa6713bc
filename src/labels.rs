use vstd::prelude::*;

verus! {

/// What a label set is, mathematically: the path, the method and the status code.
pub type LabelKey = (Seq<char>, Seq<char>, u16);

/// The labels that partition the per-request metrics: `path`, `method` and `status`.
#[derive(Clone, Debug)]
pub struct LabelSet {
    pub path: String,
    pub method: String,
    pub status: u16,
}

/// Lexicographic order on texts, character by character by code point; a
/// proper prefix comes first.
pub open spec fn text_lt(x: Seq<char>, y: Seq<char>) -> bool
    decreases x.len(),
{
    if x.len() == 0 {
        y.len() > 0
    } else if y.len() == 0 {
        false
    } else if x[0] != y[0] {
        (x[0] as int) < (y[0] as int)
    } else {
        text_lt(x.drop_first(), y.drop_first())
    }
}

/// The order of label sets: by path, then method, then status.
pub open spec fn key_lt(a: LabelKey, b: LabelKey) -> bool {
    text_lt(a.0, b.0) || (a.0 == b.0 && (text_lt(a.1, b.1) || (a.1 == b.1 && a.2 < b.2)))
}

pub proof fn lemma_text_lt_irreflexive(x: Seq<char>)
    ensures
        !text_lt(x, x),
    decreases x.len(),
{
    if x.len() > 0 {
        lemma_text_lt_irreflexive(x.drop_first());
    }
}

pub proof fn lemma_text_lt_total(x: Seq<char>, y: Seq<char>)
    ensures
        x == y || text_lt(x, y) || text_lt(y, x),
    decreases x.len(),
{
    if x.len() > 0 && y.len() > 0 && x[0] == y[0] {
        lemma_text_lt_total(x.drop_first(), y.drop_first());
        if x.drop_first() == y.drop_first() {
            assert(x =~= seq![x[0]] + x.drop_first());
            assert(y =~= seq![y[0]] + y.drop_first());
        }
    } else if x.len() == 0 && y.len() == 0 {
        assert(x =~= y);
    } else if x.len() > 0 && y.len() > 0 {
        assert((x[0] as int) != (y[0] as int));
    }
}

pub proof fn lemma_text_lt_transitive(x: Seq<char>, y: Seq<char>, z: Seq<char>)
    requires
        text_lt(x, y),
        text_lt(y, z),
    ensures
        text_lt(x, z),
    decreases x.len(),
{
    if x.len() > 0 && y.len() > 0 && z.len() > 0 && x[0] == y[0] && y[0] == z[0] {
        lemma_text_lt_transitive(x.drop_first(), y.drop_first(), z.drop_first());
    }
}

/// `key_lt` is a strict total order.
pub proof fn lemma_key_order(a: LabelKey, b: LabelKey, c: LabelKey)
    ensures
        !key_lt(a, a),
        a == b || key_lt(a, b) || key_lt(b, a),
        key_lt(a, b) && key_lt(b, c) ==> key_lt(a, c),
{
    lemma_text_lt_irreflexive(a.0);
    lemma_text_lt_irreflexive(a.1);
    lemma_text_lt_total(a.0, b.0);
    lemma_text_lt_total(a.1, b.1);
    if key_lt(a, b) && key_lt(b, c) {
        if text_lt(a.0, b.0) && text_lt(b.0, c.0) {
            lemma_text_lt_transitive(a.0, b.0, c.0);
        }
        if text_lt(a.1, b.1) && text_lt(b.1, c.1) {
            lemma_text_lt_transitive(a.1, b.1, c.1);
        }
    }
}

/// Whether text `a` comes before text `b`.
pub fn text_precedes(a: &String, b: &String) -> (r: bool)
    ensures
        r == text_lt(a@, b@),
{
    let n = a.as_str().unicode_len();
    let m = b.as_str().unicode_len();
    let mut i: usize = 0;
    assert(a@.skip(0) =~= a@);
    assert(b@.skip(0) =~= b@);
    while i < n && i < m
        invariant
            n == a@.len(),
            m == b@.len(),
            i <= n,
            i <= m,
            text_lt(a@, b@) == text_lt(a@.skip(i as int), b@.skip(i as int)),
        decreases n - i,
    {
        let x = a.as_str().get_char(i);
        let y = b.as_str().get_char(i);
        assert(a@.skip(i as int)[0] == x);
        assert(b@.skip(i as int)[0] == y);
        if x != y {
            return (x as u32) < (y as u32);
        }
        assert(a@.skip(i as int).drop_first() =~= a@.skip(i + 1));
        assert(b@.skip(i as int).drop_first() =~= b@.skip(i + 1));
        i = i + 1;
    }
    i == n && i < m
}

impl View for LabelSet {
    type V = LabelKey;

    open spec fn view(&self) -> LabelKey {
        (self.path@, self.method@, self.status)
    }
}

impl LabelSet {
    pub fn new(path: String, method: String, status: u16) -> (r: LabelSet)
        ensures
            r@ == (path@, method@, status),
    {
        LabelSet { path, method, status }
    }

    /// Whether two label sets hold the same values.
    pub fn same_as(&self, other: &LabelSet) -> (r: bool)
        ensures
            r == (self@ == other@),
    {
        self.status == other.status && self.path == other.path && self.method == other.method
    }

    /// Whether this label set comes before `other` in the order of series.
    pub fn precedes(&self, other: &LabelSet) -> (r: bool)
        ensures
            r == key_lt(self@, other@),
    {
        if text_precedes(&self.path, &other.path) {
            return true;
        }
        if !(self.path == other.path) {
            return false;
        }
        if text_precedes(&self.method, &other.method) {
            return true;
        }
        self.method == other.method && self.status < other.status
    }

    /// A copy that holds the same values.
    pub fn duplicate(&self) -> (r: LabelSet)
        ensures
            r@ == self@,
    {
        LabelSet { path: self.path.clone(), method: self.method.clone(), status: self.status }
    }
}

/// Keys in strictly increasing order.
pub open spec fn keys_sorted(keys: Seq<LabelKey>) -> bool {
    forall|i: int, j: int| 0 <= i < j < keys.len() ==> key_lt(#[trigger] keys[i], #[trigger] keys[j])
}

/// The label sets of a sequence of series.
pub open spec fn keys_of<T>(s: Seq<(LabelSet, T)>) -> Seq<LabelKey> {
    s.map_values(|e: (LabelSet, T)| e.0@)
}

/// `p` is where `k` belongs in `keys`: every key before it is smaller,
/// every key from it on is larger.
pub open spec fn slot_of(keys: Seq<LabelKey>, k: LabelKey, p: int) -> bool {
    &&& 0 <= p <= keys.len()
    &&& forall|j: int| 0 <= j < p ==> key_lt(#[trigger] keys[j], k)
    &&& forall|j: int| p <= j < keys.len() ==> key_lt(k, #[trigger] keys[j])
}

/// No key is smaller than itself.
pub proof fn lemma_key_lt_irreflexive()
    ensures
        forall|a: LabelKey| !#[trigger] key_lt(a, a),
{
    assert forall|a: LabelKey| !#[trigger] key_lt(a, a) by {
        lemma_key_order(a, a, a);
    }
}

/// Sorted keys are distinct.
pub proof fn lemma_sorted_distinct(keys: Seq<LabelKey>)
    requires
        keys_sorted(keys),
    ensures
        forall|i: int, j: int| 0 <= i < keys.len() && 0 <= j < keys.len() && i != j ==> #[trigger] keys[i] != #[trigger] keys[j],
{
    lemma_key_lt_irreflexive();
    assert forall|i: int, j: int| 0 <= i < keys.len() && 0 <= j < keys.len() && i != j implies #[trigger] keys[i] != #[trigger] keys[j] by {
        if i < j {
            assert(key_lt(keys[i], keys[j]));
        } else {
            assert(key_lt(keys[j], keys[i]));
        }
    }
}

/// Inserting a key at its place keeps the keys sorted.
pub proof fn lemma_insert_sorted(keys: Seq<LabelKey>, k: LabelKey, p: int)
    requires
        keys_sorted(keys),
        slot_of(keys, k, p),
    ensures
        keys_sorted(keys.insert(p, k)),
{
    let n = keys.insert(p, k);
    assert forall|i: int, j: int| 0 <= i < j < n.len() implies key_lt(#[trigger] n[i], #[trigger] n[j]) by {
        if j < p {
        } else if j == p {
        } else if i < p {
            assert(n[j] == keys[j - 1]);
        } else if i == p {
            assert(n[j] == keys[j - 1]);
        } else {
            assert(n[i] == keys[i - 1]);
            assert(n[j] == keys[j - 1]);
        }
    }
}

/// Where the series with label set `labels` stands in `series`, sorted by
/// label set: `Ok` with its index, or `Err` with the place where it belongs.
pub fn locate<T>(series: &Vec<(LabelSet, T)>, labels: &LabelSet) -> (r: Result<usize, usize>)
    requires
        keys_sorted(keys_of(series@)),
    ensures
        r matches Ok(i) ==> i < series@.len() && keys_of(series@)[i as int] == labels@,
        r matches Err(p) ==> slot_of(keys_of(series@), labels@, p as int),
{
    let ghost keys = keys_of(series@);
    let mut i: usize = 0;
    while i < series.len()
        invariant
            keys == keys_of(series@),
            keys_sorted(keys),
            i <= series@.len(),
            forall|j: int| 0 <= j < i ==> key_lt(#[trigger] keys[j], labels@),
        decreases series@.len() - i,
    {
        assert(keys[i as int] == series@[i as int].0@);
        if series[i].0.same_as(labels) {
            return Ok(i);
        }
        if labels.precedes(&series[i].0) {
            proof {
                assert forall|j: int| i <= j < keys.len() implies key_lt(labels@, #[trigger] keys[j]) by {
                    if j > i {
                        lemma_key_order(labels@, keys[i as int], keys[j]);
                    }
                }
            }
            return Err(i);
        }
        proof {
            lemma_key_order(keys[i as int], labels@, labels@);
        }
        i = i + 1;
    }
    Err(i)
}

} // verus!
