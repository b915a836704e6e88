use std::collections::HashSet;

use milli_postings::extract::{
    document_id_bytes, document_id_from_key, extract_docid_word_positions, push_field_postings,
    searchable_texts, Document, SerializationError, TokenizedDocument,
};
use milli_postings::flatten::JsonValue;
use milli_postings::positions::{SeparatorKind, Token, TokenKind};

fn word(t: &str) -> Token {
    Token { kind: TokenKind::Word, text: t.to_string() }
}

fn hard(t: &str) -> Token {
    Token { kind: TokenKind::Separator(SeparatorKind::Hard), text: t.to_string() }
}

fn soft(t: &str) -> Token {
    Token { kind: TokenKind::Separator(SeparatorKind::Soft), text: t.to_string() }
}

fn key(doc: u32, term: &str) -> Vec<u8> {
    let mut k = doc.to_be_bytes().to_vec();
    k.extend_from_slice(term.as_bytes());
    k
}

fn hello_world_batch() -> Vec<TokenizedDocument> {
    vec![TokenizedDocument {
        id: 7,
        fields: vec![(0, vec![word("hello"), soft(" "), word("world")])],
    }]
}

#[test]
fn hello_world_keys_and_positions() {
    let (ids, postings) = extract_docid_word_positions(&hello_world_batch());
    assert_eq!(ids.len(), 1);
    assert!(ids.contains(7));
    assert_eq!(postings.len(), 2);
    assert_eq!(postings[0].key, vec![0, 0, 0, 7, b'h', b'e', b'l', b'l', b'o']);
    assert_eq!(postings[0].position, 0);
    assert_eq!(postings[1].key, key(7, "world"));
    assert_eq!(postings[1].position, 1);
}

#[test]
fn document_id_is_big_endian() {
    assert_eq!(document_id_bytes(0x0102_0304), vec![1, 2, 3, 4]);
    assert_eq!(document_id_bytes(7), vec![0, 0, 0, 7]);
    assert_eq!(document_id_bytes(u32::MAX), vec![255, 255, 255, 255]);
}

#[test]
fn field_base_is_added() {
    let batch = vec![TokenizedDocument {
        id: 1,
        fields: vec![(3, vec![word("a"), hard("."), word("b")])],
    }];
    let (_, postings) = extract_docid_word_positions(&batch);
    let got: Vec<(Vec<u8>, u32)> = postings.into_iter().map(|p| (p.key, p.position)).collect();
    assert_eq!(got, vec![(key(1, "a"), 3000), (key(1, "b"), 3008)]);
}

#[test]
fn terms_are_trimmed_and_blank_terms_dropped() {
    let mut out = Vec::new();
    push_field_postings(2, 0, &vec![word("  spaced\t"), word("   "), word("x")], &mut out);
    let got: Vec<(Vec<u8>, u32)> = out.into_iter().map(|p| (p.key, p.position)).collect();
    assert_eq!(got, vec![(key(2, "spaced"), 0), (key(2, "x"), 2)]);
}

#[test]
fn long_field_is_truncated_at_its_span() {
    let mut tokens = Vec::new();
    for i in 0..130 {
        if i > 0 {
            tokens.push(hard("."));
        }
        tokens.push(word("w"));
    }
    let mut out = Vec::new();
    push_field_postings(9, 4, &tokens, &mut out);
    // offsets 0, 8, ..., 992 fit; 1000 and beyond are dropped
    assert_eq!(out.len(), 125);
    assert_eq!(out.last().unwrap().position, 4992);
    assert!(out.iter().all(|p| p.position / 1000 == 4));
}

#[test]
fn rerun_gives_identical_postings() {
    let batch = vec![
        TokenizedDocument { id: 3, fields: vec![(1, vec![word("b"), soft(" "), word("a")])] },
        TokenizedDocument { id: 1, fields: vec![(0, vec![word("c")]), (2, vec![word("b")])] },
    ];
    let (ids1, p1) = extract_docid_word_positions(&batch);
    let (ids2, p2) = extract_docid_word_positions(&batch);
    let mut a: Vec<(Vec<u8>, u32)> = p1.into_iter().map(|p| (p.key, p.position)).collect();
    let mut b: Vec<(Vec<u8>, u32)> = p2.into_iter().map(|p| (p.key, p.position)).collect();
    a.sort();
    b.sort();
    assert_eq!(a, b);
    assert_eq!(ids1, ids2);
}

#[test]
fn document_set_holds_every_document() {
    let batch = vec![
        TokenizedDocument { id: 10, fields: vec![] },
        TokenizedDocument { id: 4, fields: vec![(0, vec![])] },
        TokenizedDocument { id: 99, fields: vec![(0, vec![word("z")])] },
    ];
    let (ids, postings) = extract_docid_word_positions(&batch);
    assert_eq!(ids.iter().collect::<Vec<u32>>(), vec![4, 10, 99]);
    assert_eq!(postings.len(), 1);
}

#[test]
fn empty_fields_give_no_text() {
    let docs = vec![Document {
        id: 5,
        fields: vec![
            (0, JsonValue::String(String::new())),
            (1, JsonValue::Null),
            (2, JsonValue::Array(vec![])),
            (3, JsonValue::Object(vec![])),
            (4, JsonValue::String("kept".to_string())),
        ],
    }];
    let texts = searchable_texts(&docs, &None);
    assert_eq!(texts.len(), 1);
    assert_eq!(texts[0].id, 5);
    assert_eq!(texts[0].fields, vec![(0, String::new()), (4, "kept".to_string())]);
    let tokenized = vec![TokenizedDocument { id: 5, fields: vec![(0, vec![]), (4, vec![word("kept")])] }];
    let (_, postings) = extract_docid_word_positions(&tokenized);
    assert_eq!(postings.len(), 1);
    assert_eq!(postings[0].key, key(5, "kept"));
    assert_eq!(postings[0].position, 4000);
}

#[test]
fn searchable_fields_filter() {
    let docs = vec![
        Document {
            id: 1,
            fields: vec![
                (0, JsonValue::String("title".to_string())),
                (1, JsonValue::Number("12".to_string())),
                (2, JsonValue::Bool(true)),
            ],
        },
        Document { id: 2, fields: vec![] },
    ];
    let only: HashSet<u16> = [1, 2].into_iter().collect();
    let texts = searchable_texts(&docs, &Some(only));
    assert_eq!(texts.len(), 2);
    assert_eq!(texts[0].fields, vec![(1, "12".to_string()), (2, "true".to_string())]);
    assert!(texts[1].fields.is_empty());
    assert_eq!(texts[1].id, 2);
    let all = searchable_texts(&docs, &None);
    assert_eq!(all[0].fields.len(), 3);
}

#[test]
fn document_id_from_four_bytes() {
    assert_eq!(document_id_from_key(&[0, 0, 0, 7]), Ok(7));
    assert_eq!(document_id_from_key(&[1, 2, 3, 4]), Ok(0x0102_0304));
    assert_eq!(document_id_from_key(&[255, 255, 255, 255]), Ok(u32::MAX));
    assert_eq!(document_id_from_key(&[0, 0, 7]), Err(SerializationError::InvalidNumberSerialization));
    assert_eq!(document_id_from_key(&[]), Err(SerializationError::InvalidNumberSerialization));
    assert_eq!(
        document_id_from_key(&[0, 0, 0, 0, 7]),
        Err(SerializationError::InvalidNumberSerialization)
    );
    assert_eq!(document_id_from_key(&document_id_bytes(123_456)), Ok(123_456));
}
