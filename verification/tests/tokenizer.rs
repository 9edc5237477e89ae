use logslm::tokenizer::CharTokenizer;

#[test]
fn vocabulary_is_sorted_distinct_characters() {
    let tok = CharTokenizer::from_corpus("hello");
    assert_eq!(tok.vocab_size(), 4);
    assert_eq!(tok.decode(&[0, 1, 2, 3]), "ehlo");
}

#[test]
fn encode_gives_positions_in_vocabulary() {
    let tok = CharTokenizer::from_corpus("hello");
    assert_eq!(tok.encode("hello"), vec![1, 0, 2, 2, 3]);
    assert_eq!(tok.encode(""), Vec::<u32>::new());
}

#[test]
fn unknown_characters_encode_to_zero() {
    let tok = CharTokenizer::from_corpus("hello");
    assert_eq!(tok.encode("hex!"), vec![1, 0, 0, 0]);
}

#[test]
fn corpus_round_trips() {
    let corpus = "svc=auth lvl=INFO GET /login 200 12ms\nsvc=db lvl=ERROR PUT /cart 503 640ms\n";
    let tok = CharTokenizer::from_corpus(corpus);
    let ids = tok.encode(corpus);
    assert!(ids.iter().all(|&i| (i as usize) < tok.vocab_size()));
    assert_eq!(tok.decode(&ids), corpus);
}

#[test]
fn vocabulary_depends_only_on_character_set() {
    let a = CharTokenizer::from_corpus("abcabc");
    let b = CharTokenizer::from_corpus("cba");
    assert_eq!(a.vocab_size(), b.vocab_size());
    assert_eq!(a.encode("abcxyz"), b.encode("abcxyz"));
    assert_eq!(a.encode("cab"), vec![2, 0, 1]);
}

#[test]
fn empty_corpus_has_empty_vocabulary() {
    let tok = CharTokenizer::from_corpus("");
    assert_eq!(tok.vocab_size(), 0);
    assert_eq!(tok.encode("ab"), vec![0, 0]);
    assert_eq!(tok.decode(&[]), "");
}

#[test]
fn non_ascii_characters_are_ordered_by_code_point() {
    let tok = CharTokenizer::from_corpus("é€a");
    assert_eq!(tok.vocab_size(), 3);
    assert_eq!(tok.encode("a€é"), vec![0, 2, 1]);
    assert_eq!(tok.decode(&[2, 1, 0]), "€éa");
}
