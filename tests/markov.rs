use markov_chain::chain::{build_chain, merge_chain, Chain, ChainItem, Key};
use markov_chain::corpus::build_corpus;
use markov_chain::error::MarkovError;
use markov_chain::generate::generate;
use markov_chain::tokenize::{gen_chain, Tokenizer, TokenizerError};
use rand::rngs::StdRng;
use rand::SeedableRng;

fn words() -> Tokenizer {
    match Tokenizer::words() {
        Ok(t) => t,
        Err(_) => panic!("the word pattern compiles"),
    }
}

fn strings(v: &[&str]) -> Vec<String> {
    v.iter().map(|s| s.to_string()).collect()
}

fn word(s: &str) -> Key {
    Key::Word(s.to_string())
}

fn bag(c: &Chain, k: &Key) -> Vec<String> {
    match c.get(k) {
        Some(it) => it.items().clone(),
        None => Vec::new(),
    }
}

fn sorted(mut v: Vec<String>) -> Vec<String> {
    v.sort();
    v
}

#[test]
fn tokenizes_sentences() {
    let t = words();
    assert_eq!(
        t.tokenize("The cat sat. The dog sat."),
        strings(&["The", "cat", "sat.", "The", "dog", "sat."])
    );
}

#[test]
fn tokenizer_keeps_apostrophes_hyphens_and_end_marks() {
    let t = words();
    assert_eq!(
        t.tokenize("don't-stop!? now, 42 times... ok"),
        strings(&["don't-stop!?", "now", "42", "times...", "ok"])
    );
}

#[test]
fn lone_punctuation_gives_no_token() {
    let t = words();
    assert_eq!(t.tokenize(" . ! ? , ;"), Vec::<String>::new());
}

#[test]
fn empty_text_gives_no_tokens_and_no_keys() {
    let t = words();
    assert_eq!(t.tokenize(""), Vec::<String>::new());
    assert_eq!(t.tokenize("   \n\t"), Vec::<String>::new());
    let c = gen_chain(&t, "");
    assert_eq!(c.len(), 0);
    assert!(c.get(&Key::Start).is_none());
}

#[test]
fn invalid_pattern_is_refused() {
    assert!(matches!(Tokenizer::new("(ab"), Err(TokenizerError::InvalidPattern)));
}

#[test]
fn custom_pattern_tokenizes() {
    let t = match Tokenizer::new("[0-9]+") {
        Ok(t) => t,
        Err(_) => panic!("pattern compiles"),
    };
    assert_eq!(t.tokenize("a1 b22 c"), strings(&["1", "22"]));
}

#[test]
fn chain_of_two_sentences() {
    let t = words();
    let c = gen_chain(&t, "The cat sat. The dog sat.");
    assert_eq!(c.len(), 5);
    assert_eq!(bag(&c, &Key::Start), strings(&["The"]));
    assert_eq!(bag(&c, &word("The")), strings(&["cat", "dog"]));
    assert_eq!(bag(&c, &word("cat")), strings(&["sat."]));
    assert_eq!(bag(&c, &word("sat.")), strings(&["The"]));
    assert_eq!(bag(&c, &word("dog")), strings(&["sat."]));
    for seed in 0..50u64 {
        let mut rng = StdRng::seed_from_u64(seed);
        match generate(&c, 1, &mut rng) {
            Ok(w) => assert_eq!(w, strings(&["The"])),
            Err(_) => panic!("the start has successors"),
        }
    }
}

#[test]
fn build_chain_records_each_token_after_its_predecessor() {
    let c = build_chain(&strings(&["a", "b", "a", "c"]));
    assert_eq!(bag(&c, &Key::Start), strings(&["a"]));
    assert_eq!(bag(&c, &word("a")), strings(&["b", "c"]));
    assert_eq!(bag(&c, &word("b")), strings(&["a"]));
    assert!(c.get(&word("c")).is_none());
    assert_eq!(c.len(), 3);
}

#[test]
fn single_token_chain_dead_ends() {
    let c = build_chain(&strings(&["Hello"]));
    assert_eq!(bag(&c, &Key::Start), strings(&["Hello"]));
    assert!(c.get(&word("Hello")).is_none());
    let mut rng = StdRng::seed_from_u64(7);
    match generate(&c, 1, &mut rng) {
        Ok(w) => assert_eq!(w, strings(&["Hello"])),
        Err(_) => panic!("one step is possible"),
    }
    let mut rng = StdRng::seed_from_u64(7);
    assert!(matches!(generate(&c, 2, &mut rng), Err(MarkovError::GenerationDeadEnd)));
}

#[test]
fn empty_chain_dead_ends_at_start() {
    let c = Chain::new();
    let mut rng = StdRng::seed_from_u64(1);
    assert!(matches!(generate(&c, 3, &mut rng), Err(MarkovError::GenerationDeadEnd)));
    let mut rng = StdRng::seed_from_u64(1);
    match generate(&c, 0, &mut rng) {
        Ok(w) => assert!(w.is_empty()),
        Err(_) => panic!("no step is asked for"),
    }
}

#[test]
fn single_start_successor_is_always_first() {
    let c = build_chain(&strings(&["Only", "x", "Only", "y", "Only"]));
    let mut c = c;
    c.record(word("y"), "x".to_string());
    c.record(word("x"), "y".to_string());
    assert_eq!(bag(&c, &Key::Start), strings(&["Only"]));
    for seed in 0..100u64 {
        let mut rng = StdRng::seed_from_u64(seed);
        match generate(&c, 10, &mut rng) {
            Ok(w) => {
                assert_eq!(w.len(), 10);
                assert_eq!(w[0], "Only");
            }
            Err(_) => panic!("every word has successors"),
        }
    }
}

#[test]
fn same_seed_same_output() {
    let t = words();
    let c = gen_chain(&t, "a b a c b a b c a c c a b b a");
    let mut r1 = StdRng::seed_from_u64(42);
    let mut r2 = StdRng::seed_from_u64(42);
    let a = generate(&c, 10, &mut r1);
    let b = generate(&c, 10, &mut r2);
    match (a, b) {
        (Ok(a), Ok(b)) => {
            assert_eq!(a.len(), 10);
            assert_eq!(a, b);
        }
        _ => panic!("the chain is closed"),
    }
}

#[test]
fn walk_follows_recorded_successors() {
    let t = words();
    let c = gen_chain(&t, "a b a c b a b c a c c a b b a");
    let mut rng = StdRng::seed_from_u64(3);
    let w = match generate(&c, 10, &mut rng) {
        Ok(w) => w,
        Err(_) => panic!("the chain is closed"),
    };
    let mut prev = Key::Start;
    for x in &w {
        assert!(bag(&c, &prev).contains(x));
        prev = Key::Word(x.clone());
    }
}

#[test]
fn draws_are_weighted_by_count() {
    let mut it = ChainItem::new("X".to_string());
    it.add("X".to_string());
    it.add("Y".to_string());
    let mut rng = StdRng::seed_from_u64(2024);
    let mut x = 0u32;
    let mut y = 0u32;
    for _ in 0..30000 {
        let d = it.get_rand(&mut rng);
        if d == "X" {
            x += 1;
        } else if d == "Y" {
            y += 1;
        } else {
            panic!("drawn value is not in the bag");
        }
    }
    let ratio = x as f64 / y as f64;
    assert!(ratio > 1.85 && ratio < 2.15, "ratio {}", ratio);
}

#[test]
fn chain_item_operations() {
    let mut a = ChainItem::new("p".to_string());
    a.add("q".to_string());
    let mut b = ChainItem::new("r".to_string());
    b.add("p".to_string());
    a.merge(&mut b);
    assert_eq!(a.items(), &strings(&["p", "q", "r", "p"]));
    assert_eq!(b.len(), 0);
    assert_eq!(a.len(), 4);
    assert_eq!(a.pick(2), "r");
}

#[test]
fn merge_appends_bags_and_adds_keys() {
    let a = build_chain(&strings(&["x", "y", "z"]));
    let b = build_chain(&strings(&["y", "x", "y", "w"]));
    let m = merge_chain(a, b);
    assert_eq!(bag(&m, &Key::Start), strings(&["x", "y"]));
    assert_eq!(bag(&m, &word("x")), strings(&["y", "y"]));
    assert_eq!(bag(&m, &word("y")), strings(&["z", "x", "w"]));
    assert!(m.get(&word("z")).is_none());
    assert!(m.get(&word("w")).is_none());
    assert_eq!(m.len(), 3);
}

#[test]
fn merge_with_empty_is_no_op() {
    let a = build_chain(&strings(&["x", "y", "x"]));
    let m = merge_chain(a, Chain::new());
    assert_eq!(bag(&m, &Key::Start), strings(&["x"]));
    assert_eq!(bag(&m, &word("x")), strings(&["y"]));
    assert_eq!(bag(&m, &word("y")), strings(&["x"]));
    assert_eq!(m.len(), 3);
    let m2 = merge_chain(Chain::new(), build_chain(&strings(&["x", "y", "x"])));
    assert_eq!(bag(&m2, &word("x")), strings(&["y"]));
    assert_eq!(m2.len(), 3);
}

#[test]
fn merge_order_keeps_multisets() {
    let texts = ["a b c a", "b a a", "c c b a"];
    let keys = [Key::Start, word("a"), word("b"), word("c")];
    let t = words();
    let ab_c = merge_chain(
        merge_chain(gen_chain(&t, texts[0]), gen_chain(&t, texts[1])),
        gen_chain(&t, texts[2]),
    );
    let c_ba = merge_chain(
        gen_chain(&t, texts[2]),
        merge_chain(gen_chain(&t, texts[1]), gen_chain(&t, texts[0])),
    );
    for k in &keys {
        assert_eq!(sorted(bag(&ab_c, k)), sorted(bag(&c_ba, k)));
    }
    assert_eq!(sorted(bag(&ab_c, &word("a"))), strings(&["a", "b"]));
    assert_eq!(ab_c.len(), c_ba.len());
}

#[test]
fn corpus_of_no_texts_fails() {
    let t = words();
    assert!(matches!(build_corpus(&t, &Vec::new()), Err(MarkovError::NoUsableInput)));
}

#[test]
fn corpus_merges_all_texts() {
    let t = words();
    let texts = strings(&["The cat sat.", "The dog sat.", "A cat ran"]);
    let c = match build_corpus(&t, &texts) {
        Ok(c) => c,
        Err(_) => panic!("there are texts"),
    };
    assert_eq!(bag(&c, &Key::Start), strings(&["The", "The", "A"]));
    assert_eq!(bag(&c, &word("The")), strings(&["cat", "dog"]));
    assert_eq!(bag(&c, &word("cat")), strings(&["sat.", "ran"]));
    assert_eq!(bag(&c, &word("A")), strings(&["cat"]));
    assert!(c.get(&word("sat.")).is_none());
}

#[test]
fn last_word_of_one_text_gets_successors_from_another() {
    let t = words();
    let texts = strings(&["one two", "two three"]);
    let c = match build_corpus(&t, &texts) {
        Ok(c) => c,
        Err(_) => panic!("there are texts"),
    };
    assert_eq!(bag(&c, &word("two")), strings(&["three"]));
}

#[test]
fn key_comparison() {
    assert!(Key::Start.same(&Key::Start));
    assert!(word("a").same(&word("a")));
    assert!(!word("a").same(&word("b")));
    assert!(!word("a").same(&Key::Start));
}

#[test]
fn corpus_in_any_order_keeps_multisets() {
    let t = words();
    let texts = ["a b c a", "b a a", "c c b a"];
    let orders = [[0, 1, 2], [0, 2, 1], [1, 0, 2], [1, 2, 0], [2, 0, 1], [2, 1, 0]];
    let keys = [Key::Start, word("a"), word("b"), word("c")];
    let first = match build_corpus(&t, &strings(&texts)) {
        Ok(c) => c,
        Err(_) => panic!("there are texts"),
    };
    assert_eq!(sorted(bag(&first, &word("a"))), strings(&["a", "b"]));
    assert_eq!(sorted(bag(&first, &Key::Start)), strings(&["a", "b", "c"]));
    for o in &orders {
        let v: Vec<String> = o.iter().map(|&i| texts[i].to_string()).collect();
        let c = match build_corpus(&t, &v) {
            Ok(c) => c,
            Err(_) => panic!("there are texts"),
        };
        for k in &keys {
            assert_eq!(sorted(bag(&c, k)), sorted(bag(&first, k)));
        }
        assert_eq!(c.len(), first.len());
    }
}
