//! Relative word offsets within one field, and their global encoding.
use vstd::prelude::*;

verus! {

/// Width of the position range given to each field.
pub const ONE_ATTRIBUTE: u32 = 1000;

/// Extra proximity between two words split by a hard separator.
pub const HARD_SEPARATOR_GAP: usize = 8;

#[derive(Clone, Copy, Debug, PartialEq, Eq, Structural)]
pub enum SeparatorKind {
    Hard,
    Soft,
}

#[derive(Clone, Copy, Debug, PartialEq, Eq, Structural)]
pub enum TokenKind {
    Word,
    StopWord,
    Separator(SeparatorKind),
    Unknown,
}

/// One classified token of a tokenized field.
#[derive(Debug)]
pub struct Token {
    pub kind: TokenKind,
    pub text: String,
}

pub open spec fn is_word_kind(k: TokenKind) -> bool {
    match k {
        TokenKind::Word | TokenKind::StopWord | TokenKind::Unknown => true,
        TokenKind::Separator(_) => false,
    }
}

pub open spec fn is_separator_kind(k: TokenKind) -> bool {
    k is Separator
}

/// State carried from token to token: the running offset and the kind of
/// the last significant token.
pub open spec fn step(st: (int, Option<TokenKind>), k: TokenKind) -> (int, Option<TokenKind>) {
    let (offset, prev) = st;
    match k {
        TokenKind::Separator(SeparatorKind::Hard) => (offset, Some(k)),
        TokenKind::Separator(SeparatorKind::Soft) => if prev == Some(
            TokenKind::Separator(SeparatorKind::Hard),
        ) {
            st
        } else {
            (offset, Some(k))
        },
        _ => {
            let gap: int = match prev {
                Some(TokenKind::Separator(SeparatorKind::Hard)) => HARD_SEPARATOR_GAP as int,
                Some(_) => 1,
                None => 0,
            };
            (offset + gap, Some(k))
        },
    }
}

/// The state after reading every token of `s`, starting from offset 0.
pub open spec fn scan_state(s: Seq<Token>) -> (int, Option<TokenKind>)
    decreases s.len(),
{
    if s.len() == 0 {
        (0, None)
    } else {
        step(scan_state(s.drop_last()), s.last().kind)
    }
}

/// The words of `s`, each with the offset reached when it was read.
pub open spec fn scan_words(s: Seq<Token>) -> Seq<(int, Token)>
    decreases s.len(),
{
    if s.len() == 0 {
        Seq::empty()
    } else {
        let prev = scan_words(s.drop_last());
        if is_word_kind(s.last().kind) {
            prev.push((scan_state(s).0, s.last()))
        } else {
            prev
        }
    }
}

/// How many separators open the stream.
pub open spec fn leading_separators(s: Seq<Token>) -> nat
    decreases s.len(),
{
    if s.len() > 0 && is_separator_kind(s[0].kind) {
        1 + leading_separators(s.drop_first())
    } else {
        0
    }
}

/// The words of a token stream with their relative offsets.
pub open spec fn word_offsets(s: Seq<Token>) -> Seq<(int, Token)> {
    scan_words(s.skip(leading_separators(s) as int))
}

/// `r` lists the same words and offsets as `w`.
pub open spec fn same_offsets(r: Seq<(usize, Token)>, w: Seq<(int, Token)>) -> bool {
    &&& r.len() == w.len()
    &&& forall|k: int| 0 <= k < r.len() ==> (#[trigger] r[k]).0 as int == w[k].0 && r[k].1 == w[k].1
}

pub open spec fn offsets_sorted(r: Seq<(int, Token)>) -> bool {
    forall|i: int, j: int| 0 <= i <= j < r.len() ==> r[i].0 <= r[j].0
}

pub open spec fn encoded_position(field_id: u16, relative_offset: int) -> Option<u32> {
    if 0 <= relative_offset < ONE_ATTRIBUTE {
        Some((field_id * ONE_ATTRIBUTE + relative_offset) as u32)
    } else {
        None
    }
}

proof fn lemma_scan_state_bounds(s: Seq<Token>)
    ensures
        0 <= scan_state(s).0 <= 8 * s.len(),
    decreases s.len(),
{
    if s.len() > 0 {
        lemma_scan_state_bounds(s.drop_last());
    }
}

proof fn lemma_scan_words_bounded(s: Seq<Token>)
    ensures
        offsets_sorted(scan_words(s)),
        forall|i: int|
            0 <= i < scan_words(s).len() ==> 0 <= #[trigger] scan_words(s)[i].0 <= scan_state(s).0,
    decreases s.len(),
{
    if s.len() > 0 {
        lemma_scan_words_bounded(s.drop_last());
        lemma_scan_state_bounds(s.drop_last());
    }
}

/// The relative offsets given to the words of one field never decrease.
pub proof fn lemma_offsets_non_decreasing(tokens: Seq<Token>)
    ensures
        offsets_sorted(word_offsets(tokens)),
{
    lemma_scan_words_bounded(tokens.skip(leading_separators(tokens) as int));
}

/// Every word offset is at least zero.
pub proof fn lemma_offsets_non_negative(tokens: Seq<Token>)
    ensures
        forall|i: int|
            0 <= i < word_offsets(tokens).len() ==> 0 <= #[trigger] word_offsets(tokens)[i].0,
{
    lemma_scan_words_bounded(tokens.skip(leading_separators(tokens) as int));
}

proof fn lemma_leading_separators(s: Seq<Token>, i: int)
    requires
        0 <= i <= s.len(),
        forall|k: int| 0 <= k < i ==> is_separator_kind(#[trigger] s[k].kind),
        i == s.len() || !is_separator_kind(s[i].kind),
    ensures
        leading_separators(s) == i,
    decreases i,
{
    if i > 0 {
        let t = s.drop_first();
        assert forall|k: int| 0 <= k < i - 1 implies is_separator_kind(#[trigger] t[k].kind) by {
            assert(t[k] == s[k + 1]);
        }
        lemma_leading_separators(t, i - 1);
    }
}

/// Gives each word of a token stream its relative offset: leading
/// separators are skipped, a word follows the previous one by 1, or by
/// `HARD_SEPARATOR_GAP` when a hard separator stands between them.
pub fn process_tokens(tokens: &Vec<Token>) -> (r: Vec<(usize, Token)>)
    requires
        tokens@.len() <= usize::MAX / 8,
    ensures
        same_offsets(r@, word_offsets(tokens@)),
{
    let n = tokens.len();
    let mut start: usize = 0;
    while start < n && matches!(tokens[start].kind, TokenKind::Separator(_))
        invariant
            start <= n == tokens@.len(),
            forall|k: int| 0 <= k < start ==> is_separator_kind(#[trigger] tokens@[k].kind),
        decreases n - start,
    {
        start += 1;
    }
    proof {
        lemma_leading_separators(tokens@, start as int);
    }
    let ghost rest = tokens@.skip(start as int);
    let mut out: Vec<(usize, Token)> = Vec::new();
    let mut offset: usize = 0;
    let mut prev: Option<TokenKind> = None;
    let mut j: usize = start;
    while j < n
        invariant
            start <= j <= n == tokens@.len(),
            n <= usize::MAX / 8,
            rest == tokens@.skip(start as int),
            leading_separators(tokens@) == start,
            (offset as int, prev) == scan_state(rest.take(j - start)),
            offset <= 8 * (j - start),
            same_offsets(out@, scan_words(rest.take(j - start))),
        decreases n - j,
    {
        let ghost before = rest.take(j - start);
        let ghost after = rest.take(j - start + 1);
        assert(after.drop_last() =~= before);
        assert(after.last() == tokens@[j as int]);
        let kind = tokens[j].kind;
        match kind {
            TokenKind::Separator(SeparatorKind::Hard) => {
                prev = Some(kind);
            },
            TokenKind::Separator(SeparatorKind::Soft) => {
                if prev != Some(TokenKind::Separator(SeparatorKind::Hard)) {
                    prev = Some(kind);
                }
            },
            _ => {
                let gap: usize = match prev {
                    Some(TokenKind::Separator(SeparatorKind::Hard)) => HARD_SEPARATOR_GAP,
                    Some(_) => 1,
                    None => 0,
                };
                offset = offset + gap;
                prev = Some(kind);
                let token = Token { kind, text: tokens[j].text.clone() };
                out.push((offset, token));
            },
        }
        assert(scan_state(after) == step(scan_state(before), kind));
        proof {
            if is_word_kind(kind) {
                assert(scan_words(after) == scan_words(before).push(
                    (offset as int, tokens@[j as int]),
                ));
            } else {
                assert(scan_words(after) == scan_words(before));
            }
        }
        j += 1;
    }
    assert(rest.take(n - start) =~= rest);
    assert(word_offsets(tokens@) == scan_words(rest));
    out
}

/// Two words around a hard separator stand `HARD_SEPARATOR_GAP` apart;
/// around a soft separator they stand 1 apart.
pub proof fn lemma_separator_gap(a: Token, sep: Token, b: Token)
    requires
        is_word_kind(a.kind),
        is_word_kind(b.kind),
        is_separator_kind(sep.kind),
    ensures
        word_offsets(seq![a, sep, b]) == seq![
            (0int, a),
            (
                if sep.kind == TokenKind::Separator(SeparatorKind::Hard) {
                    8int
                } else {
                    1int
                },
                b,
            ),
        ],
{
    let s = seq![a, sep, b];
    let s2 = seq![a, sep];
    let s1 = seq![a];
    assert(leading_separators(s) == 0);
    assert(s.skip(0) =~= s);
    assert(s.drop_last() =~= s2);
    assert(s2.drop_last() =~= s1);
    assert(s1.drop_last() =~= Seq::<Token>::empty());
    assert(scan_state(s1.drop_last()) == (0int, None::<TokenKind>));
    assert(step((0int, None::<TokenKind>), a.kind) == (0int, Some(a.kind)));
    assert(scan_state(s1) == (0int, Some(a.kind)));
    assert(scan_words(s1.drop_last()) =~= Seq::<(int, Token)>::empty());
    assert(s1.last() == a);
    assert(scan_words(s1) =~= seq![(0int, a)]);
    assert(scan_words(s2) =~= seq![(0int, a)]);
    assert(scan_words(s) =~= seq![
        (0int, a),
        (
            if sep.kind == TokenKind::Separator(SeparatorKind::Hard) {
                8int
            } else {
                1int
            },
            b,
        ),
    ]);
}

/// Maps a field and a relative offset to a global position, or drops the
/// offset when it falls outside the field's range.
pub fn encode_position(field_id: u16, relative_offset: usize) -> (r: Option<u32>)
    ensures
        r == encoded_position(field_id, relative_offset as int),
{
    if relative_offset < ONE_ATTRIBUTE as usize {
        Some(field_id as u32 * ONE_ATTRIBUTE + relative_offset as u32)
    } else {
        None
    }
}

} // verus!
