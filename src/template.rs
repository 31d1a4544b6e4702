//! The text form of a template: 24 words separated by whitespace, each
//! either a word of the wordlist, `X` for a wholly unknown word, or words
//! joined by `|` for a word that is one of them.

use vstd::prelude::*;

use crate::space::{all_words, slot_candidates, TemplateSlot, MNEMONIC_LEN, WORDLIST_SIZE};
use crate::text::{split_on, split_text, split_words, strings_view, words_of};

verus! {

/// Why a template text cannot be read.
#[derive(PartialEq, Eq, Structural, Debug, Clone, Copy)]
pub enum TemplateError {
    /// The text does not hold 24 words.
    WrongWordCount,
    /// A word, or one of the alternatives of a word, is not in the wordlist.
    UnknownWord,
}

/// The first position of `w` in the wordlist.
pub open spec fn word_position(wordlist: Seq<Seq<char>>, w: Seq<char>) -> Option<int>
    decreases wordlist.len(),
{
    if wordlist.len() == 0 {
        None
    } else if wordlist[0] == w {
        Some(0)
    } else {
        match word_position(wordlist.drop_first(), w) {
            Some(i) => Some(i + 1),
            None => None,
        }
    }
}

/// The positions of the alternatives, where every one is a word of the list.
pub open spec fn alternative_positions(alts: Seq<Seq<char>>, wordlist: Seq<Seq<char>>) -> Option<
    Seq<u16>,
>
    decreases alts.len(),
{
    if alts.len() == 0 {
        Some(Seq::empty())
    } else {
        match (alternative_positions(alts.drop_last(), wordlist), word_position(wordlist, alts.last())) {
            (Some(p), Some(i)) => Some(p.push(i as u16)),
            _ => None,
        }
    }
}

/// The token standing for a wholly unknown word.
pub open spec fn is_wildcard(token: Seq<char>) -> bool {
    token == seq!['X']
}

/// The candidate words of a token, where it can be read.
pub open spec fn token_words(token: Seq<char>, wordlist: Seq<Seq<char>>) -> Option<Seq<u16>> {
    if is_wildcard(token) {
        Some(all_words())
    } else {
        alternative_positions(split_on(token, '|'), wordlist)
    }
}

spec fn offset_spec(p: Option<int>, by: int) -> Option<int> {
    match p {
        Some(i) => Some(i + by),
        None => None,
    }
}

/// The position of a word in the wordlist.
pub fn lookup_word(wordlist: &Vec<String>, w: &String) -> (r: Option<u16>)
    requires
        wordlist@.len() <= WORDLIST_SIZE,
    ensures
        r is None <==> word_position(strings_view(wordlist@), w@) is None,
        r is Some ==> word_position(strings_view(wordlist@), w@) == Some(r->Some_0 as int),
{
    let ghost wl = strings_view(wordlist@);
    let mut i: usize = 0;
    assert(wl.skip(0) =~= wl);
    while i < wordlist.len()
        invariant
            wl == strings_view(wordlist@),
            wordlist@.len() <= WORDLIST_SIZE,
            0 <= i <= wordlist@.len(),
            word_position(wl, w@) == offset_spec(word_position(wl.skip(i as int), w@), i as int),
        decreases wordlist@.len() - i,
    {
        assert(wl.skip(i as int).drop_first() =~= wl.skip(i + 1));
        assert(wl.skip(i as int)[0] == wordlist@[i as int]@);
        if wordlist[i] == *w {
            return Some(i as u16);
        }
        i = i + 1;
    }
    assert(wl.skip(i as int) =~= Seq::<Seq<char>>::empty());
    None
}

/// The slot a token stands for: `X` for any word, one word, or the
/// alternatives joined by `|`.
pub fn token_slot(token: &String, wordlist: &Vec<String>) -> (r: Option<TemplateSlot>)
    requires
        wordlist@.len() <= WORDLIST_SIZE,
    ensures
        r is None <==> token_words(token@, strings_view(wordlist@)) is None,
        r is Some ==> Some(slot_candidates(r->Some_0)) == token_words(
            token@,
            strings_view(wordlist@),
        ) && (r->Some_0 is Any <==> is_wildcard(token@)),
{
    let t = token.as_str();
    if t.unicode_len() == 1 && t.get_char(0) == 'X' {
        assert(token@ =~= seq!['X']);
        return Some(TemplateSlot::Any);
    }
    assert(!is_wildcard(token@)) by {
        if token@ == seq!['X'] {
            assert(t@.len() == 1 && t@[0] == 'X');
        }
    }
    let ghost wl = strings_view(wordlist@);
    let alts = split_text(t, '|');
    let ghost av = strings_view(alts@);
    let mut positions: Vec<u16> = Vec::new();
    let mut i: usize = 0;
    assert(av.take(0) =~= Seq::<Seq<char>>::empty());
    while i < alts.len()
        invariant
            wl == strings_view(wordlist@),
            av == strings_view(alts@),
            av == split_on(token@, '|'),
            !is_wildcard(token@),
            wordlist@.len() <= WORDLIST_SIZE,
            0 <= i <= alts@.len(),
            alternative_positions(av.take(i as int), wl) == Some(positions@),
        decreases alts@.len() - i,
    {
        assert(av.take(i + 1).drop_last() =~= av.take(i as int));
        assert(av.take(i + 1).last() == alts@[i as int]@);
        match lookup_word(wordlist, &alts[i]) {
            Some(p) => {
                positions.push(p);
            },
            None => {
                assert(alternative_positions(av.take(i + 1), wl) is None);
                proof {
                    lemma_alternatives_unknown(av, wl, i + 1);
                }
                assert(!is_wildcard(token@));
                assert(av == split_on(token@, '|'));
                assert(av.take(av.len() as int) =~= av);
                return None;
            },
        }
        i = i + 1;
    }
    assert(av.take(av.len() as int) =~= av);
    proof {
        lemma_positions_len(av, wl);
    }
    if positions.len() == 1 {
        let w = positions[0];
        assert(positions@ =~= seq![w]);
        Some(TemplateSlot::Word(w))
    } else {
        Some(TemplateSlot::OneOf(positions))
    }
}

proof fn lemma_positions_len(alts: Seq<Seq<char>>, wl: Seq<Seq<char>>)
    ensures
        alternative_positions(alts, wl) is Some ==> alternative_positions(alts, wl)->Some_0.len()
            == alts.len(),
    decreases alts.len(),
{
    if alts.len() > 0 {
        lemma_positions_len(alts.drop_last(), wl);
    }
}

/// An unknown alternative among the first `k` makes the whole list unknown.
proof fn lemma_alternatives_unknown(alts: Seq<Seq<char>>, wl: Seq<Seq<char>>, k: int)
    requires
        0 < k <= alts.len(),
        alternative_positions(alts.take(k), wl) is None,
    ensures
        alternative_positions(alts, wl) is None,
    decreases alts.len(),
{
    if k < alts.len() {
        assert(alts.drop_last().take(k) =~= alts.take(k));
        lemma_alternatives_unknown(alts.drop_last(), wl, k);
    } else {
        assert(alts.take(k) =~= alts);
    }
}

/// Reads a template text against the wordlist: 24 words separated by
/// whitespace, each a word of the list, `X`, or alternatives joined by `|`.
pub fn parse_template(text: &str, wordlist: &Vec<String>) -> (r: Result<
    Vec<TemplateSlot>,
    TemplateError,
>)
    requires
        wordlist@.len() == WORDLIST_SIZE,
    ensures
        words_of(text@).len() != MNEMONIC_LEN ==> r == Err::<Vec<TemplateSlot>, TemplateError>(
            TemplateError::WrongWordCount,
        ),
        words_of(text@).len() == MNEMONIC_LEN && (exists|i: int|
            0 <= i < MNEMONIC_LEN && token_words(#[trigger] words_of(text@)[i], strings_view(wordlist@))
                is None) ==> r == Err::<Vec<TemplateSlot>, TemplateError>(
            TemplateError::UnknownWord,
        ),
        r is Ok ==> r->Ok_0@.len() == MNEMONIC_LEN && forall|i: int|
            0 <= i < MNEMONIC_LEN ==> Some(slot_candidates(#[trigger] r->Ok_0@[i])) == token_words(
                words_of(text@)[i],
                strings_view(wordlist@),
            ) && (r->Ok_0@[i] is Any <==> is_wildcard(words_of(text@)[i])),
        words_of(text@).len() == MNEMONIC_LEN && (forall|i: int|
            0 <= i < MNEMONIC_LEN ==> token_words(#[trigger] words_of(text@)[i], strings_view(wordlist@))
                is Some) ==> r is Ok,
{
    let words = split_words(text);
    if words.len() != MNEMONIC_LEN {
        return Err(TemplateError::WrongWordCount);
    }
    let ghost ws = words_of(text@);
    let ghost wl = strings_view(wordlist@);
    let mut slots: Vec<TemplateSlot> = Vec::new();
    let mut i: usize = 0;
    while i < MNEMONIC_LEN
        invariant
            ws == words_of(text@),
            wl == strings_view(wordlist@),
            strings_view(words@) == ws,
            ws.len() == MNEMONIC_LEN,
            wordlist@.len() == WORDLIST_SIZE,
            0 <= i <= MNEMONIC_LEN,
            slots@.len() == i,
            forall|k: int| 0 <= k < i ==> token_words(#[trigger] ws[k], wl) is Some,
            forall|k: int|
                0 <= k < i ==> Some(slot_candidates(#[trigger] slots@[k])) == token_words(ws[k], wl)
                    && (slots@[k] is Any <==> is_wildcard(ws[k])),
        decreases MNEMONIC_LEN - i,
    {
        assert(words@[i as int]@ == ws[i as int]);
        match token_slot(&words[i], wordlist) {
            Some(slot) => {
                slots.push(slot);
            },
            None => {
                assert(forall|j: int|
                    0 <= j < MNEMONIC_LEN && token_words(#[trigger] ws[j], wl) is None ==> j >= i);
                return Err(TemplateError::UnknownWord);
            },
        }
        i = i + 1;
    }
    Ok(slots)
}

} // verus!
