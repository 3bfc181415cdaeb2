use vstd::prelude::*;
use crate::chain::{chain_of, merge_all, merge_chain, words_view, Chain, ChainModel};
use crate::error::MarkovError;
use crate::laws::lemma_merge_empty;
use crate::tokenize::{gen_chain, regex_matches, Tokenizer};

verus! {

/// The chain of each text, as `pattern` tokenizes it.
pub open spec fn text_chains(pattern: Seq<char>, texts: Seq<Seq<char>>) -> Seq<ChainModel> {
    texts.map_values(|t: Seq<char>| chain_of(regex_matches(pattern, t)))
}

/// Builds the chain of every text and merges them, left to right, into one.
pub fn build_corpus(tokenizer: &Tokenizer, texts: &Vec<String>) -> (r: Result<Chain, MarkovError>)
    ensures
        r is Err <==> texts@.len() == 0,
        r matches Err(e) ==> e == MarkovError::NoUsableInput,
        r matches Ok(c) ==> c.wf() && c@ == merge_all(
            text_chains(tokenizer.pattern(), words_view(texts@)),
        ),
{
    let ghost cs = text_chains(tokenizer.pattern(), words_view(texts@));
    if texts.len() == 0 {
        return Err(MarkovError::NoUsableInput);
    }
    let mut acc = gen_chain(tokenizer, texts[0].as_str());
    proof {
        assert(words_view(texts@)[0] == texts@[0]@);
        assert(cs[0] == acc@);
        lemma_merge_empty(cs[0]);
        assert(merge_all(Seq::<ChainModel>::empty()) == Map::<crate::chain::KeyModel, Seq<Seq<char>>>::empty());
        assert(cs.take(1).drop_last() =~= Seq::<ChainModel>::empty());
        assert(cs.take(1).last() == cs[0]);
    }
    let mut i: usize = 1;
    while i < texts.len()
        invariant
            cs == text_chains(tokenizer.pattern(), words_view(texts@)),
            1 <= i <= texts.len(),
            acc.wf(),
            acc@ == merge_all(cs.take(i as int)),
        decreases texts.len() - i,
    {
        let next = gen_chain(tokenizer, texts[i].as_str());
        acc = merge_chain(acc, next);
        proof {
            assert(cs.take(i + 1).drop_last() =~= cs.take(i as int));
            assert(cs.take(i + 1).last() == cs[i as int]);
            assert(words_view(texts@)[i as int] == texts@[i as int]@);
        }
        i = i + 1;
    }
    assert(cs.take(texts.len() as int) =~= cs);
    Ok(acc)
}

} // verus!
