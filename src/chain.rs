use vstd::prelude::*;

verus! {

/// A predecessor key as a mathematical value.
pub enum KeyModel {
    Start,
    Word(Seq<char>),
}

/// A chain as a mathematical value: each key maps to its bag of successors,
/// in the order in which they were recorded.
pub type ChainModel = Map<KeyModel, Seq<Seq<char>>>;

/// The successors recorded for `k`, empty where `k` has none.
pub open spec fn bag_of(c: ChainModel, k: KeyModel) -> Seq<Seq<char>> {
    if c.contains_key(k) {
        c[k]
    } else {
        Seq::empty()
    }
}

/// Every key present has at least one successor.
pub open spec fn bags_nonempty(c: ChainModel) -> bool {
    forall|k: KeyModel| #[trigger] c.contains_key(k) ==> c[k].len() > 0
}

/// The key that precedes the token at position `i` of `toks`.
pub open spec fn key_before(toks: Seq<Seq<char>>, i: int) -> KeyModel {
    if i == 0 {
        KeyModel::Start
    } else {
        KeyModel::Word(toks[i - 1])
    }
}

/// The chain that records each token of `toks` after the key that precedes it.
pub open spec fn chain_of(toks: Seq<Seq<char>>) -> ChainModel
    decreases toks.len(),
{
    if toks.len() == 0 {
        Map::empty()
    } else {
        let prev = chain_of(toks.drop_last());
        let k = key_before(toks, toks.len() - 1);
        prev.insert(k, bag_of(prev, k).push(toks.last()))
    }
}

/// Two chains combined: each key's bag is the first chain's bag followed by
/// the second chain's bag.
pub open spec fn merged(a: ChainModel, b: ChainModel) -> ChainModel {
    Map::new(
        |k: KeyModel| a.contains_key(k) || b.contains_key(k),
        |k: KeyModel| bag_of(a, k) + bag_of(b, k),
    )
}

/// The chains of `cs` merged from left to right.
pub open spec fn merge_all(cs: Seq<ChainModel>) -> ChainModel
    decreases cs.len(),
{
    if cs.len() == 0 {
        Map::empty()
    } else {
        merged(merge_all(cs.drop_last()), cs.last())
    }
}

/// The views of a sequence of strings.
pub open spec fn words_view(v: Seq<String>) -> Seq<Seq<char>> {
    v.map_values(|s: String| s@)
}

/// A predecessor key: the start of a text, or a word.
#[derive(Debug, PartialEq, Eq)]
pub enum Key {
    Start,
    Word(String),
}

impl View for Key {
    type V = KeyModel;

    open spec fn view(&self) -> KeyModel {
        match self {
            Key::Start => KeyModel::Start,
            Key::Word(s) => KeyModel::Word(s@),
        }
    }
}

impl Key {
    /// Whether two keys are the same key.
    pub fn same(&self, other: &Key) -> (r: bool)
        ensures
            r == (self@ == other@),
    {
        match (self, other) {
            (Key::Start, Key::Start) => true,
            (Key::Word(a), Key::Word(b)) => a.eq(b),
            _ => false,
        }
    }
}

/// The successors observed after one key, duplicates kept.
#[derive(Debug)]
pub struct ChainItem {
    items: Vec<String>,
}

impl View for ChainItem {
    type V = Seq<Seq<char>>;

    closed spec fn view(&self) -> Seq<Seq<char>> {
        words_view(self.items@)
    }
}

impl ChainItem {
    /// A bag holding the one successor `item`.
    pub fn new(item: String) -> (r: ChainItem)
        ensures
            r@ == seq![item@],
    {
        let r = ChainItem { items: vec![item] };
        assert(r@ =~= seq![item@]);
        r
    }

    /// Records one more observation of `item`.
    pub fn add(&mut self, item: String)
        ensures
            final(self)@ == old(self)@.push(item@),
    {
        self.items.push(item);
        assert(self@ =~= old(self)@.push(item@));
    }

    /// Moves every entry of `other` to the end of this bag, leaving `other` empty.
    pub fn merge(&mut self, other: &mut ChainItem)
        ensures
            final(self)@ == old(self)@ + old(other)@,
            final(other)@ == Seq::<Seq<char>>::empty(),
    {
        self.items.append(&mut other.items);
        assert(self@ =~= old(self)@ + old(other)@);
        assert(other@ =~= Seq::<Seq<char>>::empty());
    }

    /// The number of observations in the bag.
    pub fn len(&self) -> (r: usize)
        ensures
            r == self@.len(),
    {
        self.items.len()
    }

    /// The entry at `index`.
    pub fn pick(&self, index: usize) -> (r: &String)
        requires
            index < self@.len(),
        ensures
            r@ == self@[index as int],
    {
        &self.items[index]
    }

    /// The entries, in the order in which they were recorded.
    pub fn items(&self) -> (r: &Vec<String>)
        ensures
            words_view(r@) == self@,
    {
        &self.items
    }
}

/// A Markov chain: each key with the bag of words observed right after it.
pub struct Chain {
    keys: Vec<Key>,
    items: Vec<ChainItem>,
    model: Ghost<ChainModel>,
}

impl View for Chain {
    type V = ChainModel;

    closed spec fn view(&self) -> ChainModel {
        self.model@
    }
}

impl Chain {
    /// Keys and bags line up, keys are distinct, the model is exactly the
    /// keys with their bags, and no bag is empty.
    pub closed spec fn wf(&self) -> bool {
        &&& self.keys.len() == self.items.len()
        &&& forall|i: int, j: int|
            0 <= i < j < self.keys.len() ==> #[trigger] self.keys[i]@ != #[trigger] self.keys[j]@
        &&& forall|i: int|
            0 <= i < self.keys.len() ==> self.model@.contains_key(#[trigger] self.keys[i]@)
                && self.model@[self.keys[i]@] == self.items[i]@
        &&& forall|k: KeyModel|
            #[trigger] self.model@.contains_key(k) ==> exists|i: int|
                0 <= i < self.keys.len() && self.keys[i]@ == k
        &&& bags_nonempty(self.model@)
    }

    /// A chain with no keys.
    pub fn new() -> (r: Chain)
        ensures
            r.wf(),
            r@ == Map::<KeyModel, Seq<Seq<char>>>::empty(),
    {
        Chain { keys: Vec::new(), items: Vec::new(), model: Ghost(Map::empty()) }
    }

    /// Every key of a well-formed chain has a non-empty bag.
    pub proof fn lemma_bags_nonempty(&self)
        requires
            self.wf(),
        ensures
            bags_nonempty(self@),
    {
    }

    fn find(&self, key: &Key) -> (r: Option<usize>)
        requires
            self.wf(),
        ensures
            r matches Some(i) ==> i < self.keys.len() && self.keys[i as int]@ == key@,
            r is None ==> !self@.contains_key(key@),
    {
        let mut i: usize = 0;
        while i < self.keys.len()
            invariant
                self.wf(),
                i <= self.keys.len(),
                forall|j: int| 0 <= j < i ==> self.keys[j]@ != key@,
            decreases self.keys.len() - i,
        {
            if self.keys[i].same(key) {
                return Some(i);
            }
            i = i + 1;
        }
        None
    }

    /// The bag recorded for `key`, if any.
    pub fn get(&self, key: &Key) -> (r: Option<&ChainItem>)
        requires
            self.wf(),
        ensures
            r is Some <==> self@.contains_key(key@),
            r matches Some(it) ==> it@ == self@[key@],
    {
        match self.find(key) {
            Some(i) => Some(&self.items[i]),
            None => None,
        }
    }

    /// The number of keys.
    pub fn len(&self) -> (r: usize)
        requires
            self.wf(),
        ensures
            r == self@.dom().len(),
    {
        proof { self.lemma_dom_len(); }
        self.keys.len()
    }

    proof fn lemma_dom_len(&self)
        requires
            self.wf(),
        ensures
            self@.dom().len() == self.keys.len(),
            self@.dom().finite(),
    {
        let ks = self.keys@.map_values(|k: Key| k@);
        assert(self@.dom() =~= ks.to_set()) by {
            assert forall|k: KeyModel| self@.dom().contains(k) implies ks.to_set().contains(k) by {
                let i = choose|i: int| 0 <= i < self.keys.len() && self.keys[i]@ == k;
                assert(ks[i] == k);
            }
            assert forall|k: KeyModel| ks.to_set().contains(k) implies self@.dom().contains(k) by {
                let i = choose|i: int| 0 <= i < ks.len() && ks[i] == k;
                assert(self.keys[i]@ == k);
            }
        }
        assert(ks.no_duplicates()) by {
            assert forall|i: int, j: int| 0 <= i < ks.len() && 0 <= j < ks.len() && i != j implies ks[i] != ks[j] by {
                if i < j {
                    assert(self.keys[i]@ != self.keys[j]@);
                } else {
                    assert(self.keys[j]@ != self.keys[i]@);
                }
            }
        }
        ks.unique_seq_to_set();
    }

    /// Records `item` as one more successor of `key`.
    pub fn record(&mut self, key: Key, item: String)
        requires
            old(self).wf(),
        ensures
            final(self).wf(),
            final(self)@ == old(self)@.insert(key@, bag_of(old(self)@, key@).push(item@)),
    {
        let ghost k = key@;
        let ghost new_model = self@.insert(k, bag_of(self@, k).push(item@));
        match self.find(&key) {
            Some(i) => {
                self.items[i].add(item);
                self.model = Ghost(new_model);
                assert forall|k2: KeyModel| #[trigger] self.model@.contains_key(k2) implies exists|j: int|
                    0 <= j < self.keys.len() && self.keys[j]@ == k2 by {
                    if k2 == k {
                        assert(self.keys[i as int]@ == k2);
                    }
                }
            },
            None => {
                self.keys.push(key);
                self.items.push(ChainItem::new(item));
                self.model = Ghost(new_model);
                assert forall|k2: KeyModel| #[trigger] self.model@.contains_key(k2) implies exists|j: int|
                    0 <= j < self.keys.len() && self.keys[j]@ == k2 by {
                    if k2 == k {
                        assert(self.keys[self.keys.len() - 1]@ == k2);
                    } else {
                        let j = choose|j: int| 0 <= j < old(self).keys.len() && old(self).keys[j]@ == k2;
                        assert(self.keys[j]@ == k2);
                    }
                }
            },
        }
    }

    /// Appends the entries of `item` to the bag of `key`, creating it where absent.
    fn absorb(&mut self, key: Key, item: ChainItem)
        requires
            old(self).wf(),
            item@.len() > 0,
        ensures
            final(self).wf(),
            final(self)@ == old(self)@.insert(key@, bag_of(old(self)@, key@) + item@),
    {
        let ghost k = key@;
        let ghost new_model = self@.insert(k, bag_of(self@, k) + item@);
        let mut item = item;
        match self.find(&key) {
            Some(i) => {
                self.items[i].merge(&mut item);
                self.model = Ghost(new_model);
                assert forall|k2: KeyModel| #[trigger] self.model@.contains_key(k2) implies exists|j: int|
                    0 <= j < self.keys.len() && self.keys[j]@ == k2 by {
                    if k2 == k {
                        assert(self.keys[i as int]@ == k2);
                    }
                }
            },
            None => {
                self.keys.push(key);
                self.items.push(item);
                self.model = Ghost(new_model);
                assert(bag_of(old(self)@, k) + item@ =~= item@);
                assert forall|k2: KeyModel| #[trigger] self.model@.contains_key(k2) implies exists|j: int|
                    0 <= j < self.keys.len() && self.keys[j]@ == k2 by {
                    if k2 == k {
                        assert(self.keys[self.keys.len() - 1]@ == k2);
                    } else {
                        let j = choose|j: int| 0 <= j < old(self).keys.len() && old(self).keys[j]@ == k2;
                        assert(self.keys[j]@ == k2);
                    }
                }
            },
        }
    }
}

/// Builds the chain of one token sequence: each token is recorded as a
/// successor of the token before it, the first one as a successor of the start.
pub fn build_chain(tokens: &Vec<String>) -> (r: Chain)
    ensures
        r.wf(),
        r@ == chain_of(words_view(tokens@)),
{
    let ghost toks = words_view(tokens@);
    let mut chain = Chain::new();
    let mut i: usize = 0;
    while i < tokens.len()
        invariant
            toks == words_view(tokens@),
            i <= tokens.len(),
            chain.wf(),
            chain@ == chain_of(toks.take(i as int)),
        decreases tokens.len() - i,
    {
        let key = if i == 0 {
            Key::Start
        } else {
            Key::Word(tokens[i - 1].clone())
        };
        proof {
            let t = toks.take(i + 1);
            assert(t.drop_last() =~= toks.take(i as int));
            assert(key@ == key_before(t, i as int));
            assert(t.last() == tokens[i as int]@);
        }
        chain.record(key, tokens[i].clone());
        i = i + 1;
    }
    assert(toks.take(tokens.len() as int) =~= toks);
    chain
}

/// Merges `b` into `a`: each key's bag becomes `a`'s bag followed by `b`'s.
pub fn merge_chain(a: Chain, b: Chain) -> (r: Chain)
    requires
        a.wf(),
        b.wf(),
    ensures
        r.wf(),
        r@ == merged(a@, b@),
{
    let ghost target = merged(a@, b@);
    let mut a = a;
    let mut b = b;
    while b.keys.len() > 0
        invariant
            a.wf(),
            b.wf(),
            merged(a@, b@) == target,
        decreases b.keys.len(),
    {
        let ghost a0 = a@;
        let ghost b0 = b@;
        let ghost n = b.keys.len() - 1;
        let ghost old_keys = b.keys@;
        let key = b.keys.pop().unwrap();
        let item = b.items.pop().unwrap();
        let ghost k = key@;
        b.model = Ghost(b0.remove(k));
        proof {
            assert(b0.contains_key(k) && b0[k] == item@);
            assert forall|k2: KeyModel| #[trigger] b.model@.contains_key(k2) implies exists|j: int|
                0 <= j < b.keys.len() && b.keys[j]@ == k2 by {
                let j = choose|j: int| 0 <= j < old_keys.len() && old_keys[j]@ == k2;
                assert(j != n);
                assert(b.keys[j]@ == k2);
            }
        }
        a.absorb(key, item);
        proof {
            assert(merged(a@, b@) =~= merged(a0, b0)) by {
                assert forall|k2: KeyModel| merged(a@, b@).contains_key(k2) implies
                    merged(a@, b@)[k2] == merged(a0, b0)[k2] by {
                    if k2 == k {
                        assert(bag_of(a@, k) + bag_of(b@, k) =~= bag_of(a0, k) + bag_of(b0, k));
                    }
                }
            }
        }
    }
    proof {
        assert(b@ =~= Map::<KeyModel, Seq<Seq<char>>>::empty()) by {
            assert forall|k2: KeyModel| !b@.contains_key(k2) by {
                if b@.contains_key(k2) {
                    let j = choose|j: int| 0 <= j < b.keys.len() && b.keys[j]@ == k2;
                }
            }
        }
        assert(merged(a@, b@) =~= a@) by {
            assert forall|k2: KeyModel| merged(a@, b@).contains_key(k2) implies
                merged(a@, b@)[k2] == a@[k2] by {
                assert(bag_of(a@, k2) + bag_of(b@, k2) =~= a@[k2]);
            }
        }
    }
    a
}

} // verus!
