use vstd::prelude::*;
use crate::text::{
    is_white_space, is_white_space_char, is_word, join_words, lemma_split_join, lemma_words_are_words,
    push_char, split_words, views,
};

verus! {

/// Splits `text` into its white-space separated words, in order.
pub fn tokenize(text: &str) -> (tokens: Vec<String>)
    ensures
        views(tokens@) == split_words(text@),
{
    let mut tokens: Vec<String> = Vec::new();
    let mut current = String::new();
    let mut in_word = false;
    let ghost mut seen: Seq<char> = Seq::empty();
    for c in iter: text.chars()
        invariant
            iter.seq() == text@,
            seen == text@.take(iter.index() as int),
            in_word == (seen.len() > 0 && !is_white_space(seen.last())),
            !in_word ==> current@ == Seq::<char>::empty(),
            split_words(seen) == if in_word {
                views(tokens@).push(current@)
            } else {
                views(tokens@)
            },
    {
        let ghost before = seen;
        proof {
            seen = seen.push(c);
            assert(seen.drop_last() =~= before);
            assert(seen =~= text@.take(iter.index() as int + 1));
        }
        if is_white_space_char(c) {
            if in_word {
                let word = current;
                tokens.push(word);
                current = String::new();
                in_word = false;
                assert(views(tokens@) =~= split_words(before));
            }
        } else {
            let ghost old_tokens = tokens@;
            let ghost old_current = current@;
            push_char(&mut current, c);
            assert(split_words(seen) =~= views(tokens@).push(current@));
            in_word = true;
        }
    }
    if in_word {
        tokens.push(current);
    }
    proof {
        assert(seen =~= text@);
        assert(views(tokens@) =~= split_words(text@));
    }
    tokens
}

/// Joining the words of a text with single spaces and splitting the result
/// again gives the same words: tokenizing the tokens joined by `" "` gives
/// the tokens back.
pub proof fn lemma_tokenize_join(text: Seq<char>)
    ensures
        split_words(join_words(split_words(text))) == split_words(text),
{
    let ws = split_words(text);
    lemma_words_are_words(text);
    assert forall|i: int| 0 <= i < ws.len() implies is_word(#[trigger] ws[i]) by {
        assert(ws[i].len() > 0);
    }
    lemma_split_join(ws);
}

} // verus!
