use transportbench::corpus::{corpus_of, filled_payload, load_payloads, payload_index, CorpusError};

#[test]
fn a_corpus_holds_the_text_of_each_element() {
    let corpus = load_payloads(&b" [ {\"a\": 1} , \"x\",[1, 2] ,null ] ".to_vec()).unwrap();
    let texts: Vec<&[u8]> = corpus.payloads.iter().map(|p| p.as_slice()).collect();
    assert_eq!(texts, vec![&b"{\"a\": 1}"[..], b"\"x\"", b"[1, 2]", b"null"]);
    assert_eq!(corpus.avg_bytes, (8 + 3 + 6 + 4) / 4);
}

#[test]
fn what_is_no_corpus_is_refused() {
    assert!(matches!(load_payloads(&b"[]".to_vec()), Err(CorpusError::Empty)));
    for text in ["", "{}", "[1", "[1] x", "[1,]"] {
        assert!(matches!(
            load_payloads(&text.as_bytes().to_vec()),
            Err(CorpusError::Parse(_))
        ));
    }
    assert!(corpus_of(vec![]).is_none());
    assert_eq!(corpus_of(vec![vec![1, 2], vec![]]).unwrap().avg_bytes, 1);
}

#[test]
fn payloads_take_turns() {
    let chosen: Vec<usize> = (0..5).map(|i| payload_index(1, 5, i, 3)).collect();
    assert_eq!(chosen, vec![2, 0, 1, 2, 0]);
    assert_eq!(filled_payload(3), vec![0x42, 0x42, 0x42]);
    assert!(filled_payload(0).is_empty());
}
