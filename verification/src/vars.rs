//! Variable bookkeeping: the value environment handed to the evaluator and
//! the runtime harness, and the dense slot catalog that the code generator
//! assigns in first-use order.

use vstd::prelude::*;

use crate::tokenizer::TokenView;
use crate::tokenizer::distinct_names;
use crate::tokenizer::insert_var;

verus! {

/// The position of `name` in a catalog: the first index holding it, or the
/// catalog's length when it is absent (which is where an insertion would
/// place it).
pub open spec fn index_of_name(cat: Seq<Seq<char>>, name: Seq<char>) -> int
    decreases cat.len(),
{
    if cat.len() == 0 {
        0
    } else if cat[0] == name {
        0
    } else {
        1 + index_of_name(cat.skip(1), name)
    }
}

/// The slot a token's variable reads, if the token is a variable.
pub open spec fn slot_for(cat: Seq<Seq<char>>, t: TokenView) -> int {
    match t {
        TokenView::Variable(name) => index_of_name(cat, name),
        _ => 0,
    }
}

/// A scan that finds `name` first at `k` matches `index_of_name`.
pub proof fn lemma_index_of_found(cat: Seq<Seq<char>>, name: Seq<char>, k: int)
    requires
        0 <= k < cat.len(),
        cat[k] == name,
        forall|m: int| 0 <= m < k ==> cat[m] != name,
    ensures
        index_of_name(cat, name) == k,
    decreases k,
{
    if k > 0 {
        assert(cat.skip(1)[k - 1] == cat[k]);
        assert(forall|m: int| 0 <= m < k - 1 ==> cat.skip(1)[m] == cat[m + 1]);
        lemma_index_of_found(cat.skip(1), name, k - 1);
    }
}

/// A scan that never finds `name` matches `index_of_name` at the length.
pub proof fn lemma_index_of_absent(cat: Seq<Seq<char>>, name: Seq<char>)
    requires
        forall|m: int| 0 <= m < cat.len() ==> cat[m] != name,
    ensures
        index_of_name(cat, name) == cat.len(),
        !cat.contains(name),
    decreases cat.len(),
{
    if cat.len() > 0 {
        assert(forall|m: int| 0 <= m < cat.len() - 1 ==> cat.skip(1)[m] == cat[m + 1]);
        lemma_index_of_absent(cat.skip(1), name);
    }
}

/// The catalog of variable slots: a dense mapping from name to offset,
/// assigned in first-use order. The name at position `k` owns slot `k`.
#[derive(Debug)]
pub struct VarCatalog {
    names: Vec<String>,
}

impl View for VarCatalog {
    type V = Seq<Seq<char>>;

    closed spec fn view(&self) -> Seq<Seq<char>> {
        self.names.deep_view()
    }
}

impl VarCatalog {
    /// No name owns two slots.
    pub open spec fn wf(&self) -> bool {
        distinct_names(self@)
    }

    /// The empty catalog.
    pub fn new() -> (r: VarCatalog)
        ensures
            r@ == Seq::<Seq<char>>::empty(),
            r.wf(),
    {
        let r = VarCatalog { names: Vec::new() };
        proof {
            assert(r@ =~= Seq::<Seq<char>>::empty());
        }
        r
    }

    /// The number of slots assigned.
    pub fn len(&self) -> (r: usize)
        ensures
            r == self@.len(),
    {
        self.names.len()
    }

    /// The name that owns slot `k`.
    pub fn name_at(&self, k: usize) -> (r: &String)
        requires
            k < self@.len(),
        ensures
            r@ == self@[k as int],
    {
        &self.names[k]
    }

    /// The slot of `name`, if it has one.
    #[verifier::loop_isolation(false)]
    pub fn slot_of(&self, name: &String) -> (r: Option<usize>)
        ensures
            self@.contains(name@) ==> r == Some(index_of_name(self@, name@) as usize),
            !self@.contains(name@) ==> r is None,
    {
        let mut k: usize = 0;
        while k < self.names.len()
            invariant
                k <= self@.len(),
                forall|m: int| 0 <= m < k ==> self@[m] != name@,
            decreases self@.len() - k,
        {
            if self.names[k] == *name {
                proof {
                    lemma_index_of_found(self@, name@, k as int);
                    assert(self@.contains(name@)) by {
                        assert(self@[k as int] == name@);
                    }
                }
                return Some(k);
            }
            k = k + 1;
        }
        proof {
            lemma_index_of_absent(self@, name@);
        }
        None
    }

    /// A copy of the catalog.
    #[verifier::loop_isolation(false)]
    pub fn clone_catalog(&self) -> (r: VarCatalog)
        ensures
            r@ == self@,
    {
        let mut names: Vec<String> = Vec::new();
        let mut k: usize = 0;
        proof {
            assert(names.deep_view() =~= self@.take(0));
        }
        while k < self.names.len()
            invariant
                k <= self@.len(),
                names.deep_view() == self@.take(k as int),
            decreases self@.len() - k,
        {
            names.push(self.names[k].clone());
            proof {
                assert(names.deep_view() =~= self@.take(k + 1));
            }
            k = k + 1;
        }
        proof {
            assert(self@.take(self@.len() as int) =~= self@);
        }
        VarCatalog { names }
    }

    /// The slot of `name`, assigning the next free slot on first use.
    #[verifier::loop_isolation(false)]
    pub fn lookup_or_insert(&mut self, name: &String) -> (slot: usize)
        requires
            old(self).wf(),
            old(self)@.len() < usize::MAX,
        ensures
            final(self)@ == insert_var(old(self)@, TokenView::Variable(name@)),
            final(self).wf(),
            slot as int == index_of_name(old(self)@, name@),
            slot <= old(self)@.len(),
            final(self)@.len() <= old(self)@.len() + 1,
    {
        let ghost cat0 = self@;
        let mut k: usize = 0;
        while k < self.names.len()
            invariant
                k <= self@.len(),
                forall|m: int| 0 <= m < k ==> self@[m] != name@,
            decreases self@.len() - k,
        {
            if self.names[k] == *name {
                proof {
                    lemma_index_of_found(self@, name@, k as int);
                    assert(self@.contains(name@)) by {
                        assert(self@[k as int] == name@);
                    }
                }
                return k;
            }
            k = k + 1;
        }
        proof {
            lemma_index_of_absent(self@, name@);
        }
        let slot = self.names.len();
        self.names.push(name.clone());
        proof {
            assert(self@ =~= cat0.push(name@));
            assert forall|i: int, j: int| 0 <= i < j < self@.len() implies self@[i] != self@[j] by {
                if j == cat0.len() {
                    assert(cat0[i] != name@);
                }
            }
        }
        slot
    }
}

/// The mathematical map of an entry list: later entries override earlier
/// ones.
pub open spec fn env_map_of(entries: Seq<(String, i64)>) -> Map<Seq<char>, i64>
    decreases entries.len(),
{
    if entries.len() == 0 {
        Map::empty()
    } else {
        env_map_of(entries.drop_last()).insert(entries.last().0@, entries.last().1)
    }
}

/// Entries at or past `k` that never mention `key` do not affect it.
proof fn lemma_env_map_skip(entries: Seq<(String, i64)>, key: Seq<char>, k: int)
    requires
        0 <= k <= entries.len(),
        forall|m: int| k <= m < entries.len() ==> (#[trigger] entries[m]).0@ != key,
    ensures
        env_map_of(entries).contains_key(key) == env_map_of(entries.take(k)).contains_key(key),
        env_map_of(entries).contains_key(key) ==> env_map_of(entries)[key] == env_map_of(
            entries.take(k),
        )[key],
    decreases entries.len() - k,
{
    if k == entries.len() {
        assert(entries.take(k) =~= entries);
    } else {
        let shorter = entries.drop_last();
        assert(entries.last().0@ != key);
        assert(shorter =~= entries.take(entries.len() - 1));
        lemma_env_map_skip(shorter, key, k);
        assert(shorter.take(k) =~= entries.take(k));
    }
}

/// A map from variable name to value. Insertion replaces any earlier binding
/// of the same name.
pub struct VarEnv {
    entries: Vec<(String, i64)>,
}

impl View for VarEnv {
    type V = Map<Seq<char>, i64>;

    closed spec fn view(&self) -> Map<Seq<char>, i64> {
        env_map_of(self.entries@)
    }
}

impl VarEnv {
    /// The empty mapping.
    pub fn new() -> (r: VarEnv)
        ensures
            r@ == Map::<Seq<char>, i64>::empty(),
    {
        let r = VarEnv { entries: Vec::new() };
        proof {
            assert(r.entries@ =~= Seq::<(String, i64)>::empty());
        }
        r
    }

    /// Bind `name` to `value`, replacing any earlier binding.
    pub fn insert(&mut self, name: String, value: i64)
        ensures
            final(self)@ == old(self)@.insert(name@, value),
    {
        let ghost pre = self.entries@;
        let ghost key = name@;
        self.entries.push((name, value));
        proof {
            assert(self.entries@.drop_last() =~= pre);
            assert(self.entries@.last().0@ == key);
        }
    }

    /// The bindings as entered; later entries override earlier ones, so the
    /// list builds exactly this environment's map.
    pub fn entries(&self) -> (r: &Vec<(String, i64)>)
        ensures
            env_map_of(r@) == self@,
    {
        &self.entries
    }

    /// Look a name up: the most recent binding, if any.
    #[verifier::loop_isolation(false)]
    pub fn get(&self, name: &String) -> (r: Option<i64>)
        ensures
            r == if self@.contains_key(name@) {
                Some(self@[name@])
            } else {
                None::<i64>
            },
    {
        let n = self.entries.len();
        let mut k: usize = n;
        while k > 0
            invariant
                k <= n,
                n == self.entries@.len(),
                forall|m: int| k <= m < n ==> (#[trigger] self.entries@[m]).0@ != name@,
            decreases k,
        {
            k = k - 1;
            if self.entries[k].0 == *name {
                proof {
                    lemma_env_map_skip(self.entries@, name@, k + 1);
                    let front = self.entries@.take(k + 1);
                    assert(front.drop_last() =~= self.entries@.take(k as int));
                    assert(front.last() == self.entries@[k as int]);
                }
                return Some(self.entries[k].1);
            }
        }
        proof {
            lemma_env_map_skip(self.entries@, name@, 0);
            assert(self.entries@.take(0) =~= Seq::<(String, i64)>::empty());
        }
        None
    }
}

} // verus!
