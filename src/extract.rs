//! Turns a batch of documents into postings: the searchable texts of each
//! document, then one `(document, term) -> position` entry per kept word.
use std::collections::HashSet;
use vstd::prelude::*;

use crate::flatten::{flat, json_to_string, lemma_flatten_total, JsonValue};
use crate::positions::{
    encode_position, encoded_position, lemma_offsets_non_decreasing, lemma_offsets_non_negative,
    offsets_sorted, process_tokens, same_offsets, word_offsets, Token, ONE_ATTRIBUTE,
};

verus! {

broadcast use vstd::std_specs::hash::group_hash_axioms;

#[verifier::external_type_specification]
#[verifier::external_body]
pub struct ExRoaringBitmap(roaring::RoaringBitmap);

/// The document ids held by a bitmap.
pub uninterp spec fn bitmap_contents(b: roaring::RoaringBitmap) -> Set<u32>;

/// Relies on `RoaringBitmap::new`: a bitmap that holds nothing.
pub assume_specification[ roaring::RoaringBitmap::new ]() -> (r: roaring::RoaringBitmap)
    ensures
        bitmap_contents(r) == Set::<u32>::empty(),
;

/// Relies on `RoaringBitmap::insert`: adds `value`, and tells whether it was absent.
pub assume_specification[ roaring::RoaringBitmap::insert ](
    b: &mut roaring::RoaringBitmap,
    value: u32,
) -> (r: bool)
    ensures
        bitmap_contents(*final(b)) == bitmap_contents(*old(b)).insert(value),
        r == !bitmap_contents(*old(b)).contains(value),
;

/// The text of `s` without leading and trailing whitespace.
pub uninterp spec fn trimmed(s: Seq<char>) -> Seq<char>;

/// Relies on `str::trim`: the result depends on the characters of `s` alone.
#[verifier::external_body]
fn trim<'a>(s: &'a str) -> (r: &'a str)
    ensures
        r@ == trimmed(s@),
{
    s.trim()
}

/// A decoded document: its id and its fields, each with its value.
#[derive(Debug)]
pub struct Document {
    pub id: u32,
    pub fields: Vec<(u16, JsonValue)>,
}

/// The texts to tokenize for one document.
#[derive(Debug)]
pub struct DocumentTexts {
    pub id: u32,
    pub fields: Vec<(u16, String)>,
}

/// One document whose field texts went through the tokenizer.
#[derive(Debug)]
pub struct TokenizedDocument {
    pub id: u32,
    pub fields: Vec<(u16, Vec<Token>)>,
}

/// One entry for the sorter: document id and term, and a global position.
#[derive(Debug)]
pub struct Posting {
    pub key: Vec<u8>,
    pub position: u32,
}

pub open spec fn searchable_view(sf: Option<HashSet<u16>>) -> Option<Set<u16>> {
    match sf {
        Some(s) => Some(s@),
        None => None,
    }
}

pub open spec fn is_searchable(sf: Option<Set<u16>>, field_id: u16) -> bool {
    match sf {
        Some(s) => s.contains(field_id),
        None => true,
    }
}

/// The searchable and indexable fields of a document, with their texts.
pub open spec fn field_texts(fields: Seq<(u16, JsonValue)>, sf: Option<Set<u16>>) -> Seq<
    (u16, Seq<char>),
>
    decreases fields.len(),
{
    if fields.len() == 0 {
        Seq::empty()
    } else {
        let prev = field_texts(fields.drop_last(), sf);
        let (f, v) = fields.last();
        if is_searchable(sf, f) && flat(v) is Some {
            prev.push((f, flat(v)->0))
        } else {
            prev
        }
    }
}

pub open spec fn texts_view(fields: Seq<(u16, String)>) -> Seq<(u16, Seq<char>)> {
    fields.map_values(|p: (u16, String)| (p.0, p.1@))
}

/// The big-endian bytes of a document id.
pub open spec fn be_bytes(d: u32) -> Seq<u8> {
    seq![(d / 0x100_0000) as u8, ((d / 0x1_0000) % 0x100) as u8, ((d / 0x100) % 0x100) as u8, (d % 0x100) as u8]
}

/// The key of a posting: the document id, then the term's UTF-8 bytes.
pub open spec fn posting_key(document_id: u32, term: Seq<char>) -> Seq<u8> {
    be_bytes(document_id) + vstd::utf8::encode_utf8(term)
}

/// The postings of one field, from its words and their relative offsets:
/// words past the field's range and words that trim to nothing are dropped.
pub open spec fn field_postings(document_id: u32, field_id: u16, words: Seq<(int, Token)>) -> Seq<
    (Seq<u8>, u32),
>
    decreases words.len(),
{
    if words.len() == 0 {
        Seq::empty()
    } else {
        let prev = field_postings(document_id, field_id, words.drop_last());
        let (offset, token) = words.last();
        let term = trimmed(token.text@);
        if offset < ONE_ATTRIBUTE && term.len() > 0 {
            prev.push(
                (posting_key(document_id, term), encoded_position(field_id, offset)->0),
            )
        } else {
            prev
        }
    }
}

/// The postings of a document, field after field.
pub open spec fn document_postings(document_id: u32, fields: Seq<(u16, Vec<Token>)>) -> Seq<
    (Seq<u8>, u32),
>
    decreases fields.len(),
{
    if fields.len() == 0 {
        Seq::empty()
    } else {
        document_postings(document_id, fields.drop_last()) + field_postings(
            document_id,
            fields.last().0,
            word_offsets(fields.last().1@),
        )
    }
}

/// The postings of a batch, document after document.
pub open spec fn batch_postings(documents: Seq<TokenizedDocument>) -> Seq<(Seq<u8>, u32)>
    decreases documents.len(),
{
    if documents.len() == 0 {
        Seq::empty()
    } else {
        batch_postings(documents.drop_last()) + document_postings(
            documents.last().id,
            documents.last().fields@,
        )
    }
}

/// The ids of the documents of a batch.
pub open spec fn batch_ids(documents: Seq<TokenizedDocument>) -> Set<u32> {
    Set::new(|d: u32| exists|i: int| 0 <= i < documents.len() && documents[i].id == d)
}

pub open spec fn postings_view(p: Seq<Posting>) -> Seq<(Seq<u8>, u32)> {
    p.map_values(|x: Posting| (x.key@, x.position))
}

/// The token streams of a batch are short enough for their offsets to be counted.
pub open spec fn tokens_fit(documents: Seq<TokenizedDocument>) -> bool {
    forall|i: int, j: int|
        0 <= i < documents.len() && 0 <= j < documents[i].fields@.len() ==> (
        #[trigger] documents[i].fields@[j]).1@.len() <= usize::MAX / 8
}

/// A key of the batch that does not hold a document id.
#[derive(Debug, PartialEq, Eq, Structural)]
pub enum SerializationError {
    InvalidNumberSerialization,
}

/// The document id that four big-endian bytes hold.
pub open spec fn from_be_bytes(b: Seq<u8>) -> u32 {
    (b[0] * 0x100_0000 + b[1] * 0x1_0000 + b[2] * 0x100 + b[3]) as u32
}

/// Reading the bytes of a document id gives the id back.
pub proof fn lemma_document_id_round_trip(d: u32)
    ensures
        from_be_bytes(be_bytes(d)) == d,
{
    let b = be_bytes(d);
    let (x, y, z, w) = (d / 0x100_0000, (d / 0x1_0000) % 0x100, (d / 0x100) % 0x100, d % 0x100);
    assert(x < 0x100 && b[0] == x && b[1] == y && b[2] == z && b[3] == w);
    assert(x * 0x100_0000 + y * 0x1_0000 + z * 0x100 + w == d) by (nonlinear_arith)
        requires
            x == d / 0x100_0000,
            y == (d / 0x1_0000) % 0x100,
            z == (d / 0x100) % 0x100,
            w == d % 0x100,
            0 <= d,
    ;
}

/// The document id held by a key of the batch: exactly four big-endian bytes.
pub fn document_id_from_key(key: &[u8]) -> (r: Result<u32, SerializationError>)
    ensures
        key@.len() == 4 ==> r == Ok::<u32, SerializationError>(from_be_bytes(key@)),
        key@.len() != 4 ==> r == Err::<u32, SerializationError>(
            SerializationError::InvalidNumberSerialization,
        ),
{
    if key.len() != 4 {
        return Err(SerializationError::InvalidNumberSerialization);
    }
    let d = key[0] as u32 * 0x100_0000 + key[1] as u32 * 0x1_0000 + key[2] as u32 * 0x100
        + key[3] as u32;
    Ok(d)
}

/// The big-endian bytes of a document id.
pub fn document_id_bytes(d: u32) -> (r: Vec<u8>)
    ensures
        r@ == be_bytes(d),
{
    let r = vec![(d / 0x100_0000) as u8, ((d / 0x1_0000) % 0x100) as u8, ((d / 0x100) % 0x100) as u8, (d % 0x100) as u8];
    assert(r@ =~= be_bytes(d));
    r
}

proof fn lemma_field_postings_truncated(
    document_id: u32,
    field_id: u16,
    words: Seq<(int, Token)>,
    i: int,
)
    requires
        0 <= i <= words.len(),
        forall|k: int| i <= k < words.len() ==> (#[trigger] words[k]).0 >= ONE_ATTRIBUTE,
    ensures
        field_postings(document_id, field_id, words) == field_postings(
            document_id,
            field_id,
            words.take(i),
        ),
    decreases words.len(),
{
    if words.len() > i {
        lemma_field_postings_truncated(document_id, field_id, words.drop_last(), i);
        assert(words.drop_last().take(i) =~= words.take(i));
    } else {
        assert(words.take(i) =~= words);
    }
}

fn append_bytes(v: &mut Vec<u8>, bytes: &[u8])
    ensures
        final(v)@ == old(v)@ + bytes@,
{
    let ghost start = v@;
    let mut i: usize = 0;
    while i < bytes.len()
        invariant
            i <= bytes@.len(),
            v@ == start + bytes@.take(i as int),
        decreases bytes@.len() - i,
    {
        v.push(bytes[i]);
        assert(bytes@.take(i + 1) =~= bytes@.take(i as int).push(bytes@[i as int]));
        i += 1;
    }
    assert(bytes@.take(i as int) =~= bytes@);
}

/// Appends the postings of one field to `out`; reading stops at the first
/// word whose offset leaves the field's range.
pub fn push_field_postings(
    document_id: u32,
    field_id: u16,
    tokens: &Vec<Token>,
    out: &mut Vec<Posting>,
)
    requires
        tokens@.len() <= usize::MAX / 8,
    ensures
        postings_view(final(out)@) == postings_view(old(out)@) + field_postings(
            document_id,
            field_id,
            word_offsets(tokens@),
        ),
{
    let words = process_tokens(tokens);
    let ghost w = word_offsets(tokens@);
    proof {
        lemma_offsets_non_decreasing(tokens@);
    }
    let ghost start = postings_view(out@);
    let mut i: usize = 0;
    while i < words.len()
        invariant
            i <= words@.len(),
            same_offsets(words@, w),
            offsets_sorted(w),
            postings_view(out@) == start + field_postings(document_id, field_id, w.take(i as int)),
        ensures
            i <= words@.len(),
            postings_view(out@) == start + field_postings(document_id, field_id, w.take(i as int)),
            i == words@.len() || w[i as int].0 >= ONE_ATTRIBUTE,
        decreases words@.len() - i,
    {
        assert(words@[i as int].0 as int == w[i as int].0);
        let offset = words[i].0;
        if offset >= ONE_ATTRIBUTE as usize {
            break;
        }
        let ghost before = w.take(i as int);
        let ghost after = w.take(i + 1);
        assert(after.drop_last() =~= before);
        let term = trim(words[i].1.text.as_str());
        if !term.is_empty() {
            let mut key = document_id_bytes(document_id);
            append_bytes(&mut key, term.as_bytes());
            let position = encode_position(field_id, offset);
            let posting = Posting { key, position: position.unwrap() };
            let ghost prev_out = out@;
            out.push(posting);
            assert(postings_view(out@) =~= postings_view(prev_out).push((posting_key(document_id, term@), encoded_position(field_id, offset as int)->0)));
        } else {
            assert(field_postings(document_id, field_id, after) == field_postings(document_id, field_id, before));
        }
        i += 1;
    }
    proof {
        if i < words@.len() {
            assert forall|k: int| i <= k < w.len() implies (#[trigger] w[k]).0 >= ONE_ATTRIBUTE by {
                assert(w[i as int].0 <= w[k].0);
            }
        }
        lemma_field_postings_truncated(document_id, field_id, w, i as int);
    }
}

/// Collects, for each document of the batch in order, the texts of its
/// fields that are searchable and indexable, in field order.
pub fn searchable_texts(
    documents: &Vec<Document>,
    searchable_fields: &Option<HashSet<u16>>,
) -> (r: Vec<DocumentTexts>)
    ensures
        r@.len() == documents@.len(),
        forall|i: int|
            0 <= i < r@.len() ==> (#[trigger] r@[i]).id == documents@[i].id && texts_view(
                r@[i].fields@,
            ) == field_texts(documents@[i].fields@, searchable_view(*searchable_fields)),
{
    let ghost sf = searchable_view(*searchable_fields);
    let mut field_buffer = String::new();
    let mut r: Vec<DocumentTexts> = Vec::new();
    let mut i: usize = 0;
    while i < documents.len()
        invariant
            i <= documents@.len(),
            sf == searchable_view(*searchable_fields),
            r@.len() == i,
            forall|k: int|
                0 <= k < i ==> (#[trigger] r@[k]).id == documents@[k].id && texts_view(
                    r@[k].fields@,
                ) == field_texts(documents@[k].fields@, sf),
        decreases documents@.len() - i,
    {
        let document = &documents[i];
        let mut texts: Vec<(u16, String)> = Vec::new();
        let mut j: usize = 0;
        while j < document.fields.len()
            invariant
                j <= document.fields@.len(),
                sf == searchable_view(*searchable_fields),
                texts_view(texts@) == field_texts(document.fields@.take(j as int), sf),
            decreases document.fields@.len() - j,
        {
            let ghost before = document.fields@.take(j as int);
            let ghost after = document.fields@.take(j + 1);
            assert(after.drop_last() =~= before);
            let field_id = document.fields[j].0;
            let searchable = match searchable_fields {
                Some(set) => set.contains(&field_id),
                None => true,
            };
            if searchable {
                match json_to_string(&document.fields[j].1, &mut field_buffer) {
                    Some(text) => {
                        let ghost prev = texts@;
                        texts.push((field_id, text.to_owned()));
                        assert(texts_view(texts@) =~= texts_view(prev).push((field_id, text@)));
                    },
                    None => {},
                }
            }
            j += 1;
        }
        assert(document.fields@.take(j as int) =~= document.fields@);
        r.push(DocumentTexts { id: document.id, fields: texts });
        i += 1;
    }
    r
}

/// Records the id of every document of the batch, and lists the postings
/// of every tokenized field, document after document and field after
/// field, in the order in which they are read.
pub fn extract_docid_word_positions(documents: &Vec<TokenizedDocument>) -> (r: (
    roaring::RoaringBitmap,
    Vec<Posting>,
))
    requires
        tokens_fit(documents@),
    ensures
        bitmap_contents(r.0) == batch_ids(documents@),
        postings_view(r.1@) == batch_postings(documents@),
{
    let mut documents_ids = roaring::RoaringBitmap::new();
    let mut postings: Vec<Posting> = Vec::new();
    let mut i: usize = 0;
    while i < documents.len()
        invariant
            i <= documents@.len(),
            tokens_fit(documents@),
            bitmap_contents(documents_ids) == batch_ids(documents@.take(i as int)),
            postings_view(postings@) == batch_postings(documents@.take(i as int)),
        decreases documents@.len() - i,
    {
        let ghost before = documents@.take(i as int);
        let ghost after = documents@.take(i + 1);
        assert(after.drop_last() =~= before);
        let document = &documents[i];
        documents_ids.insert(document.id);
        assert(batch_ids(after) =~= batch_ids(before).insert(document.id)) by {
            assert(after[i as int] == documents@[i as int]);
            assert forall|d: u32| batch_ids(before).contains(d) implies batch_ids(after).contains(d) by {
                let k = choose|k: int| 0 <= k < before.len() && before[k].id == d;
                assert(after[k] == before[k]);
            }
            assert forall|d: u32| batch_ids(after).contains(d) && d != document.id implies batch_ids(before).contains(d) by {
                let k = choose|k: int| 0 <= k < after.len() && after[k].id == d;
                assert(before[k] == after[k]);
            }
        }
        let ghost start = postings_view(postings@);
        let mut j: usize = 0;
        while j < document.fields.len()
            invariant
                j <= document.fields@.len(),
                *document == documents@[i as int],
                tokens_fit(documents@),
                i < documents@.len(),
                postings_view(postings@) == start + document_postings(
                    document.id,
                    document.fields@.take(j as int),
                ),
            decreases document.fields@.len() - j,
        {
            let ghost fb = document.fields@.take(j as int);
            let ghost fa = document.fields@.take(j + 1);
            assert(fa.drop_last() =~= fb);
            assert(documents@[i as int].fields@[j as int].1@.len() <= usize::MAX / 8);
            push_field_postings(document.id, document.fields[j].0, &document.fields[j].1, &mut postings);
            assert(start + document_postings(document.id, fa) =~= start + document_postings(document.id, fb) + field_postings(document.id, document.fields@[j as int].0, word_offsets(document.fields@[j as int].1@)));
            j += 1;
        }
        assert(document.fields@.take(j as int) =~= document.fields@);
        assert(batch_postings(after) =~= batch_postings(before) + document_postings(document.id, document.fields@));
        i += 1;
    }
    assert(documents@.take(i as int) =~= documents@);
    (documents_ids, postings)
}

proof fn lemma_field_positions(document_id: u32, field_id: u16, words: Seq<(int, Token)>)
    requires
        forall|k: int| 0 <= k < words.len() ==> 0 <= (#[trigger] words[k]).0,
    ensures
        forall|k: int|
            0 <= k < field_postings(document_id, field_id, words).len() ==> {
                let p = (#[trigger] field_postings(document_id, field_id, words)[k]).1;
                p / ONE_ATTRIBUTE == field_id && p == field_id * ONE_ATTRIBUTE + p % ONE_ATTRIBUTE
            },
    decreases words.len(),
{
    if words.len() > 0 {
        let w = words.drop_last();
        assert forall|k: int| 0 <= k < w.len() implies 0 <= (#[trigger] w[k]).0 by {
            assert(w[k] == words[k]);
        }
        lemma_field_positions(document_id, field_id, w);
        let off = words.last().0;
        if 0 <= off < ONE_ATTRIBUTE {
            let p = (field_id * ONE_ATTRIBUTE + off) as u32;
            assert(field_id * ONE_ATTRIBUTE + off < 0x1_0000_0000) by (nonlinear_arith)
                requires
                    field_id < 0x1_0000,
                    0 <= off < 1000,
                    ONE_ATTRIBUTE == 1000,
            ;
            assert(p / ONE_ATTRIBUTE == field_id && p % ONE_ATTRIBUTE == off) by (nonlinear_arith)
                requires
                    p == field_id * 1000 + off,
                    0 <= off < 1000,
                    ONE_ATTRIBUTE == 1000,
            ;
        }
        let fp = field_postings(document_id, field_id, words);
        let prev = field_postings(document_id, field_id, w);
        assert forall|k: int| 0 <= k < fp.len() implies {
            let p = (#[trigger] fp[k]).1;
            p / ONE_ATTRIBUTE == field_id && p == field_id * ONE_ATTRIBUTE + p % ONE_ATTRIBUTE
        } by {
            if k < prev.len() {
                assert(fp[k] == prev[k]);
            }
        }
    }
}

/// Every posting of a field stays in that field's range: its position
/// divided by `ONE_ATTRIBUTE` gives back the field, and words whose offset
/// reaches the end of the range give no posting.
pub proof fn lemma_positions_stay_in_field(document_id: u32, field_id: u16, tokens: Seq<Token>)
    ensures
        forall|k: int|
            0 <= k < field_postings(document_id, field_id, word_offsets(tokens)).len() ==> {
                let p = (#[trigger] field_postings(
                    document_id,
                    field_id,
                    word_offsets(tokens),
                )[k]).1;
                p / ONE_ATTRIBUTE == field_id && p == field_id * ONE_ATTRIBUTE + p % ONE_ATTRIBUTE
            },
{
    lemma_offsets_non_negative(tokens);
    lemma_field_positions(document_id, field_id, word_offsets(tokens));
}

/// Extracting the same batch twice gives the same postings, in the same
/// order, and the same set of documents.
pub proof fn lemma_rerun_identical(a: Seq<TokenizedDocument>, b: Seq<TokenizedDocument>)
    requires
        a == b,
    ensures
        batch_postings(a) == batch_postings(b),
        batch_ids(a) == batch_ids(b),
{
}

/// A field holding `null`, an empty list or an empty record gives no text,
/// and a field whose text gives no token gives no posting.
pub proof fn lemma_empty_field_skip(
    document_id: u32,
    fields: Seq<(u16, JsonValue)>,
    field_id: u16,
    value: JsonValue,
    searchable_fields: Option<Set<u16>>,
)
    requires
        value is Null || (value is Array && value->Array_0.len() == 0) || (value is Object
            && value->Object_0.len() == 0),
    ensures
        field_texts(fields.push((field_id, value)), searchable_fields) == field_texts(
            fields,
            searchable_fields,
        ),
        field_postings(document_id, field_id, word_offsets(Seq::<Token>::empty())).len() == 0,
{
    lemma_flatten_total(value);
    assert(fields.push((field_id, value)).drop_last() =~= fields);
    assert(Seq::<Token>::empty().skip(0) =~= Seq::<Token>::empty());
}

} // verus!
