use anchor_compressed_notes::commit;
use anchor_compressed_notes::leaf::LEAF_LEN;

const KECCAK_OF_NOTHING: [u8; 32] = [
    197, 210, 70, 1, 134, 247, 35, 60, 146, 126, 125, 178, 220, 199, 3, 192, 229, 0, 182, 83,
    202, 130, 39, 59, 123, 250, 216, 4, 93, 133, 164, 112,
];

const KECCAK_OF_HELLO: [u8; 32] = [
    28, 138, 255, 149, 6, 133, 194, 237, 75, 195, 23, 79, 52, 114, 40, 123, 86, 217, 81, 123,
    156, 148, 129, 39, 49, 154, 9, 167, 163, 109, 234, 200,
];

const KECCAK_OF_ABC: [u8; 32] = [
    78, 3, 101, 122, 234, 69, 169, 79, 199, 212, 123, 168, 38, 200, 214, 103, 192, 209, 230,
    227, 58, 100, 160, 54, 236, 68, 245, 143, 161, 45, 108, 69,
];

const KECCAK_OF_GRUESSE: [u8; 32] = [
    241, 53, 176, 231, 159, 45, 51, 180, 227, 80, 117, 142, 105, 141, 4, 180, 233, 65, 130, 54,
    115, 112, 235, 130, 160, 120, 108, 7, 151, 195, 126, 192,
];

#[test]
fn commit_is_keccak_256_of_the_raw_bytes() {
    assert_eq!(commit(b""), KECCAK_OF_NOTHING);
    assert_eq!(commit(b"hello"), KECCAK_OF_HELLO);
    assert_eq!(commit(b"abc"), KECCAK_OF_ABC);
}

#[test]
fn commit_hashes_text_as_utf8() {
    assert_eq!(commit("gr\u{fc}\u{df}e".as_bytes()), KECCAK_OF_GRUESSE);
}

#[test]
fn commit_has_the_width_of_a_leaf() {
    assert_eq!(LEAF_LEN, 32);
    assert_eq!(commit(b"any text at all").len(), LEAF_LEN);
}

#[test]
fn commit_gives_the_same_leaf_each_time() {
    let texts: [&[u8]; 4] = [b"", b"hello", b"hello world", &[0u8; 500]];
    for text in texts {
        assert_eq!(commit(text), commit(text));
        assert_eq!(commit(text), commit(&text.to_vec()));
    }
}

#[test]
fn commit_agrees_with_the_hasher_fed_in_pieces() {
    let whole = commit(b"hello world");
    let pieces = anchor_lang::solana_program::keccak::hashv(&[b"hello", b" ", b"world"]);
    assert_eq!(whole, pieces.to_bytes());
}

#[test]
fn commit_separates_a_corpus_of_texts() {
    let mut corpus: Vec<Vec<u8>> = vec![
        Vec::new(),
        vec![0],
        vec![0, 0],
        b"hello".to_vec(),
        b"Hello".to_vec(),
        b"hello ".to_vec(),
        b" hello".to_vec(),
        b"hello\n".to_vec(),
        "gr\u{fc}\u{df}e".as_bytes().to_vec(),
        "grusse".as_bytes().to_vec(),
    ];
    for n in 0u32..200 {
        corpus.push(format!("note number {}", n).into_bytes());
        corpus.push(n.to_le_bytes().to_vec());
        corpus.push(vec![7u8; n as usize + 3]);
    }
    let leaves: Vec<[u8; 32]> = corpus.iter().map(|text| commit(text)).collect();
    for i in 0..corpus.len() {
        for j in (i + 1)..corpus.len() {
            assert_ne!(corpus[i], corpus[j]);
            assert_ne!(leaves[i], leaves[j]);
        }
    }
}
