use vstd::prelude::*;
use rand::rngs::StdRng;
use rand::seq::SliceRandom;
use crate::chain::{key_before, words_view, Chain, ChainItem, ChainModel, Key, KeyModel};
use crate::error::MarkovError;

verus! {

#[verifier::external_type_specification]
#[verifier::external_body]
pub struct ExStdRng(rand::rngs::StdRng);

/// Relies on rand's SliceRandom::choose: `None` for an empty slice, else
/// one of its entries, drawn at a uniformly random index.
#[verifier::external_body]
fn choose_entry<'a>(items: &'a Vec<String>, rng: &mut StdRng) -> (r: Option<&'a String>)
    ensures
        r is Some <==> items@.len() > 0,
        r matches Some(x) ==> items@.contains(*x),
{
    items.choose(rng)
}

/// `w` is a walk of `c` from the start: each word is in the bag of the key
/// before it.
pub open spec fn is_walk(c: ChainModel, w: Seq<Seq<char>>) -> bool {
    forall|i: int|
        0 <= i < w.len() ==> c.contains_key(#[trigger] key_before(w, i)) && c[key_before(
            w,
            i,
        )].contains(w[i])
}

/// The start has successors, and every recorded successor is itself a key:
/// a walk of `c` can never get stuck.
pub open spec fn closed_chain(c: ChainModel) -> bool {
    &&& c.contains_key(KeyModel::Start)
    &&& forall|k: KeyModel, j: int|
        #[trigger] c.contains_key(k) && 0 <= j < c[k].len() ==> c.contains_key(
            KeyModel::Word(#[trigger] c[k][j]),
        )
}

impl ChainItem {
    /// An entry drawn uniformly at random from the bag, so that each value is
    /// drawn in proportion to how often it was recorded.
    pub fn get_rand(&self, rng: &mut StdRng) -> (r: &String)
        requires
            self@.len() > 0,
        ensures
            exists|i: int| 0 <= i < self@.len() && r@ == self@[i],
    {
        let items = self.items();
        let r = choose_entry(items, rng).unwrap();
        proof {
            let j = choose|j: int| 0 <= j < items@.len() && items@[j] == *r;
            assert(r@ == self@[j]);
        }
        r
    }
}

/// Walks `chain` from the start for `n` steps, drawing each next word from
/// the bag of the current one.
pub fn generate(chain: &Chain, n: usize, rng: &mut StdRng) -> (r: Result<Vec<String>, MarkovError>)
    requires
        chain.wf(),
    ensures
        r matches Ok(w) ==> w@.len() == n && is_walk(chain@, words_view(w@)),
        r matches Err(e) ==> e == MarkovError::GenerationDeadEnd && exists|w: Seq<Seq<char>>|
            w.len() < n && is_walk(chain@, w) && !chain@.contains_key(
                #[trigger] key_before(w, w.len() as int),
            ),
        closed_chain(chain@) ==> r is Ok,
{
    let mut out: Vec<String> = Vec::new();
    let mut cur = Key::Start;
    while out.len() < n
        invariant
            chain.wf(),
            out.len() <= n,
            is_walk(chain@, words_view(out@)),
            cur@ == key_before(words_view(out@), out.len() as int),
            closed_chain(chain@) ==> chain@.contains_key(cur@),
        decreases n - out.len(),
    {
        let ghost w = words_view(out@);
        match chain.get(&cur) {
            None => {
                assert(!chain@.contains_key(key_before(w, w.len() as int)));
                return Err(MarkovError::GenerationDeadEnd);
            },
            Some(item) => {
                proof {
                    chain.lemma_bags_nonempty();
                    assert(chain@.contains_key(cur@));
                }
                let next = item.get_rand(rng).clone();
                let ghost i = choose|i: int| 0 <= i < item@.len() && next@ == item@[i];
                out.push(next.clone());
                let ghost w2 = words_view(out@);
                proof {
                    assert(w2 =~= w.push(next@));
                    assert forall|j: int| 0 <= j < w2.len() implies chain@.contains_key(
                        #[trigger] key_before(w2, j),
                    ) && chain@[key_before(w2, j)].contains(w2[j]) by {
                        if j < w.len() {
                            assert(key_before(w2, j) == key_before(w, j));
                        } else {
                            assert(w2[j] == item@[i]);
                        }
                    }
                    if closed_chain(chain@) {
                        assert(chain@.contains_key(KeyModel::Word(chain@[cur@][i])));
                    }
                }
                cur = Key::Word(next);
            },
        }
    }
    Ok(out)
}

} // verus!
