//! What the tokens of a source text spell: the text without its whitespace.

use vstd::prelude::*;
use crate::lexer::{
    after, classify, is_keyword, is_lexable, is_space, is_type_name, is_word_char,
    lemma_word_end_bounds, scan, tokens_of, word_end, TokenModel,
};
use crate::text::{
    decimal_text, digit_char, digit_value, digits_of, is_digit, is_numeral, numeral_value,
    parse_decimal,
};

verus! {

/// The text of a token: what it holds, a number in decimal, and nothing for
/// the end marker.
pub open spec fn token_text(token: TokenModel) -> Seq<char> {
    match token {
        TokenModel::Punctuation(s) => s,
        TokenModel::Keyword(s) => s,
        TokenModel::Operator(s) => s,
        TokenModel::Identifier(s) => s,
        TokenModel::Type(s) => s,
        TokenModel::Number(n) => decimal_text(n as int),
        TokenModel::Bool(true) => "true"@,
        TokenModel::Bool(false) => "false"@,
        TokenModel::EOF => Seq::empty(),
    }
}

/// The texts of the tokens, one after the other.
pub open spec fn spelling(tokens: Seq<TokenModel>) -> Seq<char>
    decreases tokens.len(),
{
    if tokens.len() == 0 {
        Seq::empty()
    } else {
        token_text(tokens[0]) + spelling(tokens.drop_first())
    }
}

pub open spec fn not_space() -> spec_fn(char) -> bool {
    |c: char| !is_space(c)
}

/// The text without its whitespace.
pub open spec fn visible(text: Seq<char>) -> Seq<char> {
    text.filter(not_space())
}

/// A word starts at `i`: a word character that no word character precedes.
pub open spec fn starts_word(source: Seq<char>, i: int) -> bool {
    &&& 0 <= i < source.len()
    &&& is_word_char(source[i])
    &&& i == 0 || !is_word_char(source[i - 1])
}

/// A numeral as one writes a number: without zeros in front.
pub open spec fn is_plain(word: Seq<char>) -> bool {
    word.len() == 1 || word[0] != '0'
}

/// Every word of the source that reads as a number is written without
/// zeros in front.
pub open spec fn numerals_plain(source: Seq<char>) -> bool {
    forall|i: int| #[trigger]
        starts_word(source, i) && parse_decimal(source.subrange(i, word_end(source, i))) is Some
            ==> is_plain(source.subrange(i, word_end(source, i)))
}

/// The lexer fails on a source exactly if the source holds a character that
/// no token can hold, and then reports the first such character.
pub proof fn lemma_scan_fails_at_first_unlexable(source: Seq<char>, pos: int)
    requires
        0 <= pos <= source.len() <= usize::MAX,
    ensures
        match scan(source, pos) {
            Ok(_) => forall|i: int| pos <= i < source.len() ==> is_lexable(#[trigger] source[i]),
            Err(e) => {
                &&& pos <= e.position < source.len()
                &&& e.character == source[e.position as int]
                &&& !is_lexable(e.character)
                &&& forall|i: int| pos <= i < e.position ==> is_lexable(#[trigger] source[i])
            },
        },
    decreases source.len() - pos,
{
    if pos < source.len() {
        let c = source[pos];
        if is_space(c) || crate::lexer::is_punctuation(c) || crate::lexer::is_operator_char(c) {
            lemma_scan_fails_at_first_unlexable(source, pos + 1);
        } else if is_word_char(c) {
            lemma_word_end_bounds(source, pos + 1);
            lemma_word_chars(source, pos + 1);
            lemma_scan_fails_at_first_unlexable(source, word_end(source, pos + 1));
        } else if c == '=' {
            if pos + 1 < source.len() && source[pos + 1] == '=' {
                lemma_scan_fails_at_first_unlexable(source, pos + 2);
            } else {
                lemma_scan_fails_at_first_unlexable(source, pos + 1);
            }
        }
    }
}

/// From `pos` to where the word ends there are word characters only, and
/// none right after.
pub proof fn lemma_word_chars(source: Seq<char>, pos: int)
    requires
        0 <= pos <= source.len(),
    ensures
        forall|i: int| pos <= i < word_end(source, pos) ==> is_word_char(#[trigger] source[i]),
        word_end(source, pos) < source.len() ==> !is_word_char(source[word_end(source, pos)]),
    decreases source.len() - pos,
{
    if pos < source.len() && is_word_char(source[pos]) {
        lemma_word_chars(source, pos + 1);
    }
}

proof fn lemma_visible_one(c: char)
    ensures
        visible(seq![c]) == if is_space(c) {
            Seq::<char>::empty()
        } else {
            seq![c]
        },
{
    reveal_with_fuel(Seq::filter, 2);
    assert(seq![c].drop_last() =~= Seq::<char>::empty());
    assert(seq![c].last() == c);
    assert(Seq::<char>::empty().push(c) =~= seq![c]);
}

proof fn lemma_visible_all(text: Seq<char>)
    requires
        forall|i: int| 0 <= i < text.len() ==> !is_space(#[trigger] text[i]),
    ensures
        visible(text) == text,
    decreases text.len(),
{
    reveal(Seq::filter);
    if text.len() > 0 {
        lemma_visible_all(text.drop_last());
        assert(text.drop_last().push(text.last()) =~= text);
    }
}

proof fn lemma_visible_split(source: Seq<char>, pos: int, next: int)
    requires
        0 <= pos <= next <= source.len(),
    ensures
        visible(source.skip(pos)) == visible(source.subrange(pos, next)) + visible(
            source.skip(next),
        ),
{
    assert(source.skip(pos) =~= source.subrange(pos, next) + source.skip(next));
    Seq::filter_distributes_over_add(source.subrange(pos, next), source.skip(next), not_space());
}

proof fn lemma_spelling_after(token: TokenModel, rest: Seq<TokenModel>)
    ensures
        spelling(seq![token] + rest) == token_text(token) + spelling(rest),
{
    assert((seq![token] + rest).drop_first() =~= rest);
}

/// A digit stands for the number that is written with it.
proof fn lemma_digit(c: char)
    requires
        is_digit(c),
    ensures
        0 <= digit_value(c) < 10,
        digit_char(digit_value(c)) == c,
{
}

/// A plain numeral of more than one digit is worth ten or more, one of one
/// digit less.
proof fn lemma_plain_numeral_size(word: Seq<char>)
    requires
        is_numeral(word),
        is_plain(word),
    ensures
        word.len() == 1 ==> 0 <= numeral_value(word) < 10,
        word.len() > 1 ==> numeral_value(word) >= 10,
    decreases word.len(),
{
    let front = word.drop_last();
    lemma_digit(word.last());
    if word.len() == 1 {
        assert(front.len() == 0);
        assert(numeral_value(front) == 0);
    } else {
        assert(front[0] == word[0]);
        assert(is_numeral(front)) by {
            assert forall|i: int| 0 <= i < front.len() implies is_digit(#[trigger] front[i]) by {
                assert(front[i] == word[i]);
            }
        }
        if front.len() == 1 {
            lemma_digit(front[0]);
            assert(front.drop_last().len() == 0);
            assert(numeral_value(front.drop_last()) == 0);
            assert(numeral_value(front) == digit_value(front[0]));
            assert(digit_value(front[0]) >= 1);
        } else {
            lemma_plain_numeral_size(front);
        }
    }
}

/// A plain numeral is the decimal rendering of its value.
pub proof fn lemma_plain_numeral_round_trip(word: Seq<char>)
    requires
        is_numeral(word),
        is_plain(word),
    ensures
        numeral_value(word) >= 0,
        digits_of(numeral_value(word) as nat) == word,
    decreases word.len(),
{
    let front = word.drop_last();
    lemma_digit(word.last());
    lemma_plain_numeral_size(word);
    if word.len() == 1 {
        assert(front.len() == 0);
        assert(numeral_value(front) == 0);
        assert(seq![word.last()] =~= word);
    } else {
        assert(front[0] == word[0]);
        assert(is_numeral(front)) by {
            assert forall|i: int| 0 <= i < front.len() implies is_digit(#[trigger] front[i]) by {
                assert(front[i] == word[i]);
            }
        }
        lemma_plain_numeral_round_trip(front);
        let value = numeral_value(word);
        let d = digit_value(word.last());
        assert(value == 10 * numeral_value(front) + d);
        assert(value / 10 == numeral_value(front));
        assert(value % 10 == d);
        assert(front.push(word.last()) =~= word);
    }
}

/// The token of a word spells the word, if the word is no numeral with
/// zeros in front.
proof fn lemma_word_spelled(word: Seq<char>)
    requires
        parse_decimal(word) is Some ==> is_plain(word),
    ensures
        token_text(classify(word)) == word,
{
    if !is_keyword(word) && !is_type_name(word) && word != "true"@ && word != "false"@ {
        if parse_decimal(word) is Some {
            lemma_plain_numeral_round_trip(word);
        }
    }
}

/// As `lemma_tokens_spell_source`, from a position of the source that does
/// not lie inside of a word.
proof fn lemma_scan_spells(source: Seq<char>, pos: int)
    requires
        0 <= pos <= source.len(),
        numerals_plain(source),
        pos == 0 || pos == source.len() || !is_word_char(source[pos - 1]) || !is_word_char(
            source[pos],
        ),
        scan(source, pos) is Ok,
    ensures
        spelling(scan(source, pos)->Ok_0) == visible(source.skip(pos)),
    decreases source.len() - pos,
{
    if pos >= source.len() {
        assert(source.skip(pos) =~= Seq::<char>::empty());
        lemma_visible_all(source.skip(pos));
        lemma_spelling_after(TokenModel::EOF, Seq::empty());
        assert(seq![TokenModel::EOF] + Seq::<TokenModel>::empty() =~= seq![TokenModel::EOF]);
        assert(spelling(Seq::<TokenModel>::empty()) =~= Seq::<char>::empty());
        assert(token_text(TokenModel::EOF) + Seq::<char>::empty() =~= Seq::<char>::empty());
    } else {
        let c = source[pos];
        lemma_visible_one(c);
        if is_word_char(c) {
            let end = word_end(source, pos + 1);
            lemma_word_end_bounds(source, pos + 1);
            lemma_word_chars(source, pos + 1);
            let word = source.subrange(pos, end);
            assert(word_end(source, pos) == end);
            assert(starts_word(source, pos));
            lemma_word_spelled(word);
            lemma_scan_spells(source, end);
            let rest = scan(source, end)->Ok_0;
            lemma_spelling_after(classify(word), rest);
            lemma_visible_split(source, pos, end);
            assert forall|i: int| 0 <= i < word.len() implies !is_space(#[trigger] word[i]) by {
                assert(is_word_char(source[pos + i]));
            }
            lemma_visible_all(word);
        } else if c == '=' && pos + 1 < source.len() && source[pos + 1] == '=' {
            lemma_scan_spells(source, pos + 2);
            let rest = scan(source, pos + 2)->Ok_0;
            lemma_spelling_after(TokenModel::Operator("=="@), rest);
            lemma_visible_split(source, pos, pos + 2);
            let pair = source.subrange(pos, pos + 2);
            assert(pair =~= "=="@) by {
                reveal_strlit("==");
            }
            assert forall|i: int| 0 <= i < pair.len() implies !is_space(#[trigger] pair[i]) by {}
            lemma_visible_all(pair);
        } else {
            lemma_scan_spells(source, pos + 1);
            let rest = scan(source, pos + 1)->Ok_0;
            lemma_visible_split(source, pos, pos + 1);
            assert(source.subrange(pos, pos + 1) =~= seq![c]);
            if is_space(c) {
                assert(Seq::<char>::empty() + visible(source.skip(pos + 1)) =~= visible(
                    source.skip(pos + 1),
                ));
            } else if crate::lexer::is_punctuation(c) {
                lemma_spelling_after(TokenModel::Punctuation(seq![c]), rest);
            } else if c == '=' {
                lemma_spelling_after(TokenModel::Operator("="@), rest);
                assert(seq![c] =~= "="@) by {
                    reveal_strlit("=");
                }
            } else {
                lemma_spelling_after(TokenModel::Operator(seq![c]), rest);
            }
        }
    }
}

/// The texts of the tokens of a source, one after the other, are the source
/// without its whitespace, provided that no number in the source is
/// written with zeros in front.
pub proof fn lemma_tokens_spell_source(source: Seq<char>)
    requires
        tokens_of(source) is Ok,
        numerals_plain(source),
    ensures
        spelling(tokens_of(source)->Ok_0) == visible(source),
{
    lemma_scan_spells(source, 0);
    assert(source.skip(0) =~= source);
}

} // verus!
