//! Splitting source text into tokens.
use vstd::prelude::*;

use crate::pattern::{matches_pattern, pattern_matches};
use crate::text::{
    all_digits, before_comment, chars_of, comment_at, contains_char, copy_range, is_digit,
    lemma_before_comment_idempotent, lemma_lines_scan_append, lemma_lines_scan_one_line,
    lemma_strip_cr_words, lines_of, lines_scan, parse_i64, parse_i64_spec, split_lines,
    split_whitespace_chars, split_ws, string_from_chars, strip_comment, strip_cr,
};
use crate::token::{duplicate_tokens, token_views, Token, TokenView};

verus! {

/// Any word character.
pub const VAR_PATTERN: &'static str = r"\w+";
/// A word character between single quotes.
pub const CHAR_PATTERN: &'static str = r"\'\w{1}\'";
/// Text between double quotes.
pub const STRING_PATTERN: &'static str = r#""[^"\r\n]*""#;
/// `true` or `false`.
pub const BOOLEAN_PATTERN: &'static str = r"(true)|(false)";
/// An integer or a decimal number.
pub const NUMBER_PATTERN: &'static str = r"^-?\d+\.\d+|-?\d+";
/// `+`.
pub const PLUS_PATTERN: &'static str = r"(\+{1})";
/// `-`.
pub const MINUS_PATTERN: &'static str = r"(\-{1})";
/// `*`.
pub const STAR_PATTERN: &'static str = r"(\*{1})";
/// `/`.
pub const SLASH_PATTERN: &'static str = r"(\/{1})";
/// `^`.
pub const SQ_PATTERN: &'static str = r"(\^{1})";
/// A leading `==`.
pub const EQ_PATTERN: &'static str = r"^(\=\=){1}";
/// A leading `!=`.
pub const UNEQ_PATTERN: &'static str = r"^(\!\=){1}";
/// A leading `>=`.
pub const GE_PATTERN: &'static str = r"^>=";
/// A leading `>`.
pub const GT_PATTERN: &'static str = r"^>";
/// A leading `<=`.
pub const LE_PATTERN: &'static str = r"^<=";
/// A leading `<`.
pub const LT_PATTERN: &'static str = r"^<";
/// A leading `let` word.
pub const LET_PATTERN: &'static str = r"^let\b";
/// A leading `=`.
pub const ASSIGN_PATTERN: &'static str = r"^=";
/// `if`.
pub const IF_PATTERN: &'static str = r"(if)";
/// `elseif`.
pub const ELSEIF_PATTERN: &'static str = r"(elseif)";
/// `else`.
pub const ELSE_PATTERN: &'static str = r"(else)";
/// `then`.
pub const THEN_PATTERN: &'static str = r"(then)";
/// `while`.
pub const WHILE_PATTERN: &'static str = r"(while)";
/// `do`.
pub const DO_PATTERN: &'static str = r"(do)";
/// `for`.
pub const FOR_PATTERN: &'static str = r"(for)";
/// `in`.
pub const IN_PATTERN: &'static str = r"(in)";
/// `end`.
pub const END_PATTERN: &'static str = r"(end)";
/// `(`.
pub const SPARENT_PATTERN: &'static str = r"\({1}";
/// `)`.
pub const EPARENT_PATTERN: &'static str = r"\){1}";
/// `{`.
pub const CURLS_PATTERN: &'static str = r"\{{1}";
/// `}`.
pub const CURLE_PATTERN: &'static str = r"\}{1}";
/// `[`.
pub const SQUARE_S_PATTERN: &'static str = r"\[{1}";
/// The closing-bracket pattern, which is written as `[` too.
pub const SQUARE_E_PATTERN: &'static str = r"\[{1}";
/// `func`.
pub const FUNC_PATTERN: &'static str = r"func";

/// Whether `c` is a one-byte (ASCII) character.
pub open spec fn is_ascii_char(c: char) -> bool {
    (c as u32) < 128
}

/// Whether `c` is a sign.
pub open spec fn is_sign(c: char) -> bool {
    c == '+' || c == '-'
}

/// `w` without a leading sign.
pub open spec fn unsigned_part(w: Seq<char>) -> Seq<char> {
    if w.len() > 0 && is_sign(w[0]) {
        w.drop_first()
    } else {
        w
    }
}

/// Whether `c` marks an exponent.
pub open spec fn is_exp_mark(c: char) -> bool {
    c == 'e' || c == 'E'
}

/// Digits with at most one `.` among them and at least one digit.
pub open spec fn mantissa_ok(m: Seq<char>) -> bool {
    &&& forall|i: int| 0 <= i < m.len() ==> is_digit(#[trigger] m[i]) || m[i] == '.'
    &&& forall|i: int, j: int| 0 <= i < m.len() && 0 <= j < m.len() && m[i] == '.' && m[j] == '.' ==> i == j
    &&& exists|i: int| 0 <= i < m.len() && is_digit(#[trigger] m[i])
}

/// An optional sign and at least one digit.
pub open spec fn exponent_ok(x: Seq<char>) -> bool {
    unsigned_part(x).len() > 0 && all_digits(unsigned_part(x))
}

/// Whether `str::parse::<f64>` accepts `w`, a word holding a `.`: an optional sign,
/// digits with one `.` and at least one digit, and an optional exponent (`e` or
/// `E`, an optional sign, digits).
pub open spec fn float_text(w: Seq<char>) -> bool {
    let b = unsigned_part(w);
    ||| (forall|k: int| 0 <= k < b.len() ==> !is_exp_mark(#[trigger] b[k])) && mantissa_ok(b)
    ||| exists|k: int|
        0 <= k < b.len() && is_exp_mark(#[trigger] b[k]) && mantissa_ok(b.take(k)) && exponent_ok(
            b.skip(k + 1),
        )
}

/// Whether the regex `p` matches the word `w`.
pub open spec fn m(p: &str, w: Seq<char>) -> bool {
    pattern_matches(p@, w)
}

/// How many patterns a word is tried against.
pub const WORD_PATTERN_COUNT: usize = 34;

/// The patterns a word is tried against, in the order they are tried.
pub open spec fn pattern_at(i: int) -> &'static str {
    if i == 0 {
        CHAR_PATTERN
    } else if i == 1 {
        STRING_PATTERN
    } else if i == 2 {
        BOOLEAN_PATTERN
    } else if i == 3 {
        NUMBER_PATTERN
    } else if i == 4 {
        PLUS_PATTERN
    } else if i == 5 {
        MINUS_PATTERN
    } else if i == 6 {
        STAR_PATTERN
    } else if i == 7 {
        SLASH_PATTERN
    } else if i == 8 {
        SQ_PATTERN
    } else if i == 9 {
        LET_PATTERN
    } else if i == 10 {
        IF_PATTERN
    } else if i == 11 {
        ELSEIF_PATTERN
    } else if i == 12 {
        ELSE_PATTERN
    } else if i == 13 {
        THEN_PATTERN
    } else if i == 14 {
        WHILE_PATTERN
    } else if i == 15 {
        DO_PATTERN
    } else if i == 16 {
        FOR_PATTERN
    } else if i == 17 {
        IN_PATTERN
    } else if i == 18 {
        END_PATTERN
    } else if i == 19 {
        SPARENT_PATTERN
    } else if i == 20 {
        EPARENT_PATTERN
    } else if i == 21 {
        CURLS_PATTERN
    } else if i == 22 {
        CURLE_PATTERN
    } else if i == 23 {
        SQUARE_S_PATTERN
    } else if i == 24 {
        SQUARE_E_PATTERN
    } else if i == 25 {
        FUNC_PATTERN
    } else if i == 26 {
        VAR_PATTERN
    } else if i == 27 {
        EQ_PATTERN
    } else if i == 28 {
        UNEQ_PATTERN
    } else if i == 29 {
        GE_PATTERN
    } else if i == 30 {
        LE_PATTERN
    } else if i == 31 {
        ASSIGN_PATTERN
    } else if i == 32 {
        GT_PATTERN
    } else {
        LT_PATTERN
    }
}

/// The answer at `k` of `matched`, a missing answer counting as no match.
pub open spec fn answer(matched: Seq<bool>, k: int) -> bool {
    0 <= k < matched.len() && matched[k]
}

/// The answers of the patterns for the word `w`, in the order they are tried.
pub open spec fn word_matches(w: Seq<char>) -> Seq<bool> {
    Seq::new(WORD_PATTERN_COUNT as nat, |i: int| m(pattern_at(i), w))
}

/// The token for the word `w`, given in `matched` what each pattern answers
/// for it; `None` where the word would make tokenizing panic (a quoted text
/// whose first or last character is not one byte, a number that does not
/// parse).
pub open spec fn classify_with(matched: Seq<bool>, w: Seq<char>) -> Option<TokenView> {
    if answer(matched, 0) {
        Some(TokenView::Char)
    } else if answer(matched, 1) {
        if w.len() >= 2 && is_ascii_char(w[0]) && is_ascii_char(w.last()) {
            Some(TokenView::Str(w.subrange(1, w.len() - 1)))
        } else {
            None
        }
    } else if answer(matched, 2) {
        Some(TokenView::Bool(w == "true"@))
    } else if answer(matched, 3) {
        if w.contains('.') {
            if float_text(w) {
                Some(TokenView::Float(w))
            } else {
                None
            }
        } else {
            match parse_i64_spec(w) {
                Some(v) => Some(TokenView::Number(v)),
                None => None,
            }
        }
    } else {
        Some(classify_symbol_with(matched, w))
    }
}

/// The token for a word that is no quoted text, boolean or number, given the
/// answers of the patterns in `matched`.
pub open spec fn classify_symbol_with(matched: Seq<bool>, w: Seq<char>) -> TokenView {
    if answer(matched, 4) {
        TokenView::PLUS
    } else if answer(matched, 5) {
        TokenView::MINUS
    } else if answer(matched, 6) {
        TokenView::STAR
    } else if answer(matched, 7) {
        TokenView::SLASH
    } else if answer(matched, 8) {
        TokenView::SQ
    } else if answer(matched, 9) {
        TokenView::LET
    } else if answer(matched, 10) {
        TokenView::IF
    } else if answer(matched, 11) {
        TokenView::ELSEIF
    } else if answer(matched, 12) {
        TokenView::ELSE
    } else if answer(matched, 13) {
        TokenView::THEN
    } else if answer(matched, 14) {
        TokenView::WHILE
    } else if answer(matched, 15) {
        TokenView::DO
    } else if answer(matched, 16) {
        TokenView::FOR
    } else if answer(matched, 17) {
        TokenView::IN
    } else if answer(matched, 18) {
        TokenView::END
    } else if answer(matched, 19) {
        TokenView::SPARENT
    } else if answer(matched, 20) {
        TokenView::EPARENT
    } else if answer(matched, 21) {
        TokenView::CurlSbracket
    } else if answer(matched, 22) {
        TokenView::CurlEbreacket
    } else if answer(matched, 23) {
        TokenView::SquareSbracket
    } else if answer(matched, 24) {
        TokenView::SquareEbracket
    } else if answer(matched, 25) {
        TokenView::Func
    } else if answer(matched, 26) {
        TokenView::Var(w)
    } else if answer(matched, 27) {
        TokenView::EQ
    } else if answer(matched, 28) {
        TokenView::UNEQ
    } else if answer(matched, 29) {
        TokenView::GE
    } else if answer(matched, 30) {
        TokenView::LE
    } else if answer(matched, 31) {
        TokenView::ASSIGN
    } else if answer(matched, 32) {
        TokenView::GT
    } else if answer(matched, 33) {
        TokenView::LT
    } else {
        TokenView::Unknown
    }
}

/// The token for the word `w`, the patterns tried in order; `None` where the
/// word would make tokenizing panic.
pub open spec fn classify(w: Seq<char>) -> Option<TokenView> {
    classify_with(word_matches(w), w)
}

/// The words of `lines`, in order: each line's whitespace-separated words
/// before its first `"--"`.
pub open spec fn line_words(lines: Seq<Seq<char>>) -> Seq<Seq<char>>
    decreases lines.len(),
{
    if lines.len() == 0 {
        Seq::empty()
    } else {
        line_words(lines.drop_last()) + split_ws(before_comment(lines.last()))
    }
}

/// The words of the source text.
pub open spec fn source_words(text: Seq<char>) -> Seq<Seq<char>> {
    line_words(split_lines(text))
}

/// The tokens of `words`, or `None` where one of them makes tokenizing panic.
pub open spec fn classify_all(words: Seq<Seq<char>>) -> Option<Seq<TokenView>>
    decreases words.len(),
{
    if words.len() == 0 {
        Some(Seq::empty())
    } else {
        match classify_all(words.drop_last()) {
            Some(ts) => match classify(words.last()) {
                Some(t) => Some(ts.push(t)),
                None => None,
            },
            None => None,
        }
    }
}

/// The tokens of the source text, or `None` where tokenizing it panics.
pub open spec fn tokenize_text(text: Seq<char>) -> Option<Seq<TokenView>> {
    classify_all(source_words(text))
}


/// Whether `w[from..to]` is a mantissa: digits, at most one `.`, at least one digit.
fn check_mantissa(w: &[char], from: usize, to: usize) -> (r: bool)
    requires
        from <= to <= w@.len(),
    ensures
        r == mantissa_ok(w@.subrange(from as int, to as int)),
{
    let ghost s = w@.subrange(from as int, to as int);
    let mut i: usize = from;
    let mut dots: usize = 0;
    let mut digits = false;
    let ghost mut dot_at: int = -1;
    while i < to
        invariant
            from <= i <= to <= w@.len(),
            s == w@.subrange(from as int, to as int),
            forall|k: int| 0 <= k < i - from ==> is_digit(#[trigger] s[k]) || s[k] == '.',
            dots <= 1,
            dots == 0 ==> forall|k: int| 0 <= k < i - from ==> s[k] != '.',
            dots == 1 ==> 0 <= dot_at < i - from && s[dot_at] == '.' && forall|k: int|
                0 <= k < i - from && k != dot_at ==> s[k] != '.',
            digits <==> exists|k: int| 0 <= k < i - from && is_digit(#[trigger] s[k]),
        decreases to - i,
    {
        let c = w[i];
        assert(s[i - from] == c);
        if '0' <= c && c <= '9' {
            digits = true;
        } else if c == '.' {
            if dots == 1 {
                assert(s[dot_at] == '.' && s[i - from] == '.' && dot_at != i - from);
                return false;
            }
            dots = 1;
            proof {
                dot_at = i - from;
            }
        } else {
            assert(!(is_digit(s[i - from]) || s[i - from] == '.'));
            return false;
        }
        i = i + 1;
    }
    digits
}

/// Whether `w[from..]` is an exponent: an optional sign and at least one digit.
fn check_exponent(w: &[char], from: usize) -> (r: bool)
    requires
        from <= w@.len(),
    ensures
        r == exponent_ok(w@.skip(from as int)),
{
    let ghost x = w@.skip(from as int);
    let mut i = from;
    if i < w.len() && (w[i] == '+' || w[i] == '-') {
        i = i + 1;
    }
    assert(unsigned_part(x) == w@.skip(i as int));
    if i == w.len() {
        return false;
    }
    let mut j = i;
    while j < w.len()
        invariant
            i <= j <= w@.len(),
            from <= w@.len(),
            unsigned_part(w@.skip(from as int)) == w@.skip(i as int),
            forall|k: int| i <= k < j ==> is_digit(#[trigger] w@[k]),
        decreases w@.len() - j,
    {
        if !('0' <= w[j] && w[j] <= '9') {
            assert(w@.skip(i as int)[j - i] == w@[j as int]);
            assert(!is_digit(w@.skip(i as int)[j - i]));
            return false;
        }
        j = j + 1;
    }
    assert forall|k: int| 0 <= k < w@.skip(i as int).len() implies is_digit(
        #[trigger] w@.skip(i as int)[k],
    ) by {
        assert(w@.skip(i as int)[k] == w@[i + k]);
    }
    true
}

/// Whether `str::parse::<f64>` accepts `w`, a word holding a `.`.
pub fn is_float_text(w: &[char]) -> (r: bool)
    ensures
        r == float_text(w@),
{
    let start: usize = if w.len() > 0 && (w[0] == '+' || w[0] == '-') { 1 } else { 0 };
    let ghost b = unsigned_part(w@);
    assert(b == w@.skip(start as int));
    let mut k = start;
    while k < w.len() && !(w[k] == 'e' || w[k] == 'E')
        invariant
            start <= k <= w@.len(),
            b == w@.skip(start as int),
            forall|j: int| 0 <= j < k - start ==> !is_exp_mark(#[trigger] b[j]),
        decreases w@.len() - k,
    {
        k = k + 1;
    }
    if k == w.len() {
        assert(b == w@.subrange(start as int, k as int));
        let r = check_mantissa(w, start, k);
        proof {
            if exists|j: int|
                0 <= j < b.len() && is_exp_mark(#[trigger] b[j]) && mantissa_ok(b.take(j))
                    && exponent_ok(b.skip(j + 1)) {
                let j = choose|j: int|
                    0 <= j < b.len() && is_exp_mark(#[trigger] b[j]) && mantissa_ok(b.take(j))
                        && exponent_ok(b.skip(j + 1));
                assert(!is_exp_mark(b[j]));
            }
        }
        r
    } else {
        let kk = k - start;
        assert(b.take(kk as int) == w@.subrange(start as int, k as int));
        assert(b.skip(kk + 1) == w@.skip(k + 1));
        assert(is_exp_mark(b[kk as int]));
        let r = check_mantissa(w, start, k) && check_exponent(w, k + 1);
        proof {
            if exists|j: int|
                0 <= j < b.len() && is_exp_mark(#[trigger] b[j]) && mantissa_ok(b.take(j))
                    && exponent_ok(b.skip(j + 1)) {
                let j = choose|j: int|
                    0 <= j < b.len() && is_exp_mark(#[trigger] b[j]) && mantissa_ok(b.take(j))
                        && exponent_ok(b.skip(j + 1));
                if j > kk {
                    assert(b.take(j)[kk as int] == b[kk as int]);
                    assert(!(is_digit(b.take(j)[kk as int]) || b.take(j)[kk as int] == '.'));
                } else if j < kk {
                    assert(!is_exp_mark(b[j]));
                }
            }
        }
        r
    }
}


/// The `i`-th pattern a word is tried against.
pub fn word_pattern(i: usize) -> (p: &'static str)
    requires
        i < WORD_PATTERN_COUNT,
    ensures
        p == pattern_at(i as int),
{
    if i == 0 {
        CHAR_PATTERN
    } else if i == 1 {
        STRING_PATTERN
    } else if i == 2 {
        BOOLEAN_PATTERN
    } else if i == 3 {
        NUMBER_PATTERN
    } else if i == 4 {
        PLUS_PATTERN
    } else if i == 5 {
        MINUS_PATTERN
    } else if i == 6 {
        STAR_PATTERN
    } else if i == 7 {
        SLASH_PATTERN
    } else if i == 8 {
        SQ_PATTERN
    } else if i == 9 {
        LET_PATTERN
    } else if i == 10 {
        IF_PATTERN
    } else if i == 11 {
        ELSEIF_PATTERN
    } else if i == 12 {
        ELSE_PATTERN
    } else if i == 13 {
        THEN_PATTERN
    } else if i == 14 {
        WHILE_PATTERN
    } else if i == 15 {
        DO_PATTERN
    } else if i == 16 {
        FOR_PATTERN
    } else if i == 17 {
        IN_PATTERN
    } else if i == 18 {
        END_PATTERN
    } else if i == 19 {
        SPARENT_PATTERN
    } else if i == 20 {
        EPARENT_PATTERN
    } else if i == 21 {
        CURLS_PATTERN
    } else if i == 22 {
        CURLE_PATTERN
    } else if i == 23 {
        SQUARE_S_PATTERN
    } else if i == 24 {
        SQUARE_E_PATTERN
    } else if i == 25 {
        FUNC_PATTERN
    } else if i == 26 {
        VAR_PATTERN
    } else if i == 27 {
        EQ_PATTERN
    } else if i == 28 {
        UNEQ_PATTERN
    } else if i == 29 {
        GE_PATTERN
    } else if i == 30 {
        LE_PATTERN
    } else if i == 31 {
        ASSIGN_PATTERN
    } else if i == 32 {
        GT_PATTERN
    } else {
        LT_PATTERN
    }
}

/// The answer at `k` of `matched`, a missing answer counting as no match.
fn answered(matched: &[bool], k: usize) -> (b: bool)
    ensures
        b == answer(matched@, k as int),
{
    k < matched.len() && matched[k]
}

/// The token for a word that is no quoted text, boolean or number, given the
/// answers of the patterns.
fn classify_symbol_from_matches(matched: &[bool], word: &[char]) -> (r: Token)
    ensures
        r@ == classify_symbol_with(matched@, word@),
{
    if answered(matched, 4) {
        Token::PLUS
    } else if answered(matched, 5) {
        Token::MINUS
    } else if answered(matched, 6) {
        Token::STAR
    } else if answered(matched, 7) {
        Token::SLASH
    } else if answered(matched, 8) {
        Token::SQ
    } else if answered(matched, 9) {
        Token::LET
    } else if answered(matched, 10) {
        Token::IF
    } else if answered(matched, 11) {
        Token::ELSEIF
    } else if answered(matched, 12) {
        Token::ELSE
    } else if answered(matched, 13) {
        Token::THEN
    } else if answered(matched, 14) {
        Token::WHILE
    } else if answered(matched, 15) {
        Token::DO
    } else if answered(matched, 16) {
        Token::FOR
    } else if answered(matched, 17) {
        Token::IN
    } else if answered(matched, 18) {
        Token::END
    } else if answered(matched, 19) {
        Token::SPARENT
    } else if answered(matched, 20) {
        Token::EPARENT
    } else if answered(matched, 21) {
        Token::CurlSbracket
    } else if answered(matched, 22) {
        Token::CurlEbreacket
    } else if answered(matched, 23) {
        Token::SquareSbracket
    } else if answered(matched, 24) {
        Token::SquareEbracket
    } else if answered(matched, 25) {
        Token::Func
    } else if answered(matched, 26) {
        Token::Var(string_from_chars(word))
    } else if answered(matched, 27) {
        Token::EQ
    } else if answered(matched, 28) {
        Token::UNEQ
    } else if answered(matched, 29) {
        Token::GE
    } else if answered(matched, 30) {
        Token::LE
    } else if answered(matched, 31) {
        Token::ASSIGN
    } else if answered(matched, 32) {
        Token::GT
    } else if answered(matched, 33) {
        Token::LT
    } else {
        Token::Unknown
    }
}

/// The token for `word`, given in `matched` what each pattern answers for it
/// (in the order of [`word_pattern`]); `None` where the word would make
/// tokenizing panic.
pub fn classify_from_matches(matched: &[bool], word: &[char]) -> (r: Option<Token>)
    ensures
        match r {
            Some(t) => classify_with(matched@, word@) == Some(t@),
            None => classify_with(matched@, word@) is None,
        },
{
    if answered(matched, 0) {
        Some(Token::Char)
    } else if answered(matched, 1) {
        let n = word.len();
        if n >= 2 && (word[0] as u32) < 128 && (word[n - 1] as u32) < 128 {
            let inner = copy_range(word, 1, n - 1);
            Some(Token::Str(string_from_chars(inner.as_slice())))
        } else {
            None
        }
    } else if answered(matched, 2) {
        let is_true = word.len() == 4 && word[0] == 't' && word[1] == 'r' && word[2] == 'u'
            && word[3] == 'e';
        proof {
            reveal_strlit("true");
            if word@ == "true"@ {
                assert(word@[0] == 't' && word@[1] == 'r' && word@[2] == 'u' && word@[3] == 'e');
            }
            if is_true {
                assert(word@ =~= "true"@);
            }
        }
        Some(Token::Bool(is_true))
    } else if answered(matched, 3) {
        if contains_char(word, '.') {
            if is_float_text(word) {
                Some(Token::Float(string_from_chars(word)))
            } else {
                None
            }
        } else {
            match parse_i64(word) {
                Some(v) => Some(Token::Number(v)),
                None => None,
            }
        }
    } else {
        Some(classify_symbol_from_matches(matched, word))
    }
}

/// What each pattern answers for `word`, in the order they are tried.
fn pattern_answers(word: &[char]) -> (r: Vec<bool>)
    ensures
        r@ == word_matches(word@),
{
    let text = string_from_chars(word);
    let mut r: Vec<bool> = Vec::new();
    let mut i: usize = 0;
    while i < WORD_PATTERN_COUNT
        invariant
            text@ == word@,
            i <= WORD_PATTERN_COUNT,
            r@.len() == i,
            forall|k: int| 0 <= k < i ==> r@[k] == m(pattern_at(k), word@),
        decreases WORD_PATTERN_COUNT - i,
    {
        r.push(matches_pattern(word_pattern(i), text.as_str()));
        i = i + 1;
    }
    assert(r@ =~= word_matches(word@));
    r
}

/// The token for one word, or `None` where the word makes tokenizing panic.
pub fn classify_word(word: &[char]) -> (r: Option<Token>)
    ensures
        match r {
            Some(t) => classify(word@) == Some(t@),
            None => classify(word@) is None,
        },
{
    let matched = pattern_answers(word);
    classify_from_matches(matched.as_slice(), word)
}

proof fn lemma_classify_all_prefix(ws: Seq<Seq<char>>, k: int)
    requires
        0 <= k <= ws.len(),
        classify_all(ws) is Some,
    ensures
        classify_all(ws.take(k)) is Some,
    decreases ws.len() - k,
{
    if k < ws.len() {
        lemma_classify_all_prefix(ws.drop_last(), k);
        assert(ws.drop_last().take(k) == ws.take(k));
    } else {
        assert(ws.take(k) == ws);
    }
}

/// The words of the source text, in order.
fn words_of(text: &str) -> (r: Vec<Vec<char>>)
    ensures
        r@.len() == source_words(text@).len(),
        forall|k: int| 0 <= k < r@.len() ==> (#[trigger] r@[k])@ == source_words(text@)[k],
{
    let chars = chars_of(text);
    let lines = lines_of(chars.as_slice());
    let ghost ls = split_lines(text@);
    let mut words: Vec<Vec<char>> = Vec::new();
    let mut i: usize = 0;
    while i < lines.len()
        invariant
            lines@.len() == ls.len(),
            forall|k: int| 0 <= k < lines@.len() ==> (#[trigger] lines@[k])@ == ls[k],
            i <= lines@.len(),
            words@.len() == line_words(ls.take(i as int)).len(),
            forall|k: int| 0 <= k < words@.len() ==> (#[trigger] words@[k])@ == line_words(ls.take(i as int))[k],
        decreases lines@.len() - i,
    {
        let code = strip_comment(lines[i].as_slice());
        let line_ws = split_whitespace_chars(code.as_slice());
        let ghost before = words@;
        let ghost prev = line_words(ls.take(i as int));
        let ghost add = split_ws(before_comment(ls[i as int]));
        let mut j: usize = 0;
        while j < line_ws.len()
            invariant
                j <= line_ws@.len() == add.len(),
                forall|k: int| 0 <= k < line_ws@.len() ==> (#[trigger] line_ws@[k])@ == add[k],
                before.len() == prev.len(),
                forall|k: int| 0 <= k < before.len() ==> (#[trigger] before[k])@ == prev[k],
                words@.len() == before.len() + j,
                forall|k: int| 0 <= k < words@.len() ==> (#[trigger] words@[k])@ == (prev + add)[k],
            decreases line_ws@.len() - j,
        {
            let w = copy_range(line_ws[j].as_slice(), 0, line_ws[j].len());
            assert(line_ws[j as int]@.subrange(0, line_ws[j as int]@.len() as int) == line_ws[j as int]@);
            words.push(w);
            j = j + 1;
        }
        assert(ls.take(i + 1).drop_last() == ls.take(i as int));
        assert(ls.take(i + 1).last() == ls[i as int]);
        i = i + 1;
    }
    assert(ls.take(lines@.len() as int) == ls);
    words
}


proof fn lemma_classify_all_each(ws: Seq<Seq<char>>)
    requires
        classify_all(ws) is Some,
    ensures
        classify_all(ws)->0.len() == ws.len(),
        forall|i: int| 0 <= i < ws.len() ==> classify(#[trigger] ws[i]) == Some(classify_all(ws)->0[i]),
    decreases ws.len(),
{
    if ws.len() > 0 {
        let init = ws.drop_last();
        lemma_classify_all_each(init);
        assert forall|i: int| 0 <= i < ws.len() implies classify(#[trigger] ws[i]) == Some(
            classify_all(ws)->0[i],
        ) by {
            if i < ws.len() - 1 {
                assert(init[i] == ws[i]);
            }
        }
    }
}

/// Tokenizing gives one token for each word of the source outside comments,
/// in order: the token that the word's classification gives.
pub proof fn lemma_one_token_per_word(text: Seq<char>)
    requires
        tokenize_text(text) is Some,
    ensures
        tokenize_text(text)->0.len() == source_words(text).len(),
        forall|i: int|
            0 <= i < source_words(text).len() ==> classify(#[trigger] source_words(text)[i]) == Some(
                tokenize_text(text)->0[i],
            ),
{
    lemma_classify_all_each(source_words(text));
}

proof fn lemma_line_words_append(x: Seq<Seq<char>>, y: Seq<Seq<char>>)
    ensures
        line_words(x + y) == line_words(x) + line_words(y),
    decreases y.len(),
{
    if y.len() == 0 {
        assert(x + y == x);
        assert(line_words(x) + line_words(y) == line_words(x));
    } else {
        lemma_line_words_append(x, y.drop_last());
        assert((x + y).drop_last() == x + y.drop_last());
        assert((x + y).last() == y.last());
        assert(line_words(x + y.drop_last()) + split_ws(before_comment(y.last())) == line_words(x)
            + (line_words(y.drop_last()) + split_ws(before_comment(y.last()))));
    }
}

proof fn lemma_classify_all_append(x: Seq<Seq<char>>, y: Seq<Seq<char>>)
    ensures
        classify_all(x + y) == match (classify_all(x), classify_all(y)) {
            (Some(s), Some(t)) => Some(s + t),
            _ => None::<Seq<TokenView>>,
        },
    decreases y.len(),
{
    if y.len() == 0 {
        assert(x + y == x);
        if let Some(s) = classify_all(x) {
            assert(s + Seq::<TokenView>::empty() == s);
        }
    } else {
        let y0 = y.drop_last();
        lemma_classify_all_append(x, y0);
        assert((x + y).drop_last() == x + y0);
        assert((x + y).last() == y.last());
        if let (Some(s), Some(t)) = (classify_all(x), classify_all(y0)) {
            if let Some(w) = classify(y.last()) {
                assert((s + t).push(w) == s + t.push(w));
            }
        }
    }
}

/// The words of a text without `'\n'`: those of its part before the first `"--"`.
proof fn lemma_source_words_one_line(s: Seq<char>)
    requires
        !s.contains('\n'),
    ensures
        source_words(s) == split_ws(before_comment(s)),
{
    lemma_lines_scan_one_line(s);
    if s.len() > 0 {
        assert(seq![s].drop_last() == Seq::<Seq<char>>::empty());
        assert(line_words(seq![s]) == line_words(Seq::<Seq<char>>::empty()) + split_ws(before_comment(s)));
    } else {
        assert(!exists|i: int| comment_at(s, i));
        assert(split_ws(s) == Seq::<Seq<char>>::empty());
    }
}

/// Text after `"--"` on a line does not change its tokens: a line without
/// `'\n'` tokenizes as its part before the first `"--"` does, and the one
/// fails exactly where the other does.
pub proof fn lemma_comment_ignored(line: Seq<char>)
    requires
        !line.contains('\n'),
    ensures
        tokenize_text(line) == tokenize_text(before_comment(line)),
{
    let b = before_comment(line);
    lemma_before_comment_idempotent(line);
    assert(!b.contains('\n')) by {
        if b.contains('\n') {
            let i = choose|i: int| 0 <= i < b.len() && b[i] == '\n';
            assert(b[i] == line[i]);
        }
    }
    lemma_source_words_one_line(line);
    lemma_source_words_one_line(b);
}

/// Tokenizing two texts joined by a newline gives the first text's tokens
/// followed by the second's; it fails exactly where one of them fails.
pub proof fn lemma_tokenize_joined(a: Seq<char>, b: Seq<char>)
    ensures
        tokenize_text(a + seq!['\n'] + b) == match (tokenize_text(a), tokenize_text(b)) {
            (Some(s), Some(t)) => Some(s + t),
            _ => None::<Seq<TokenView>>,
        },
{
    let p = a + seq!['\n'];
    let (la, ca) = lines_scan(a);
    assert(p.drop_last() == a);
    assert(p.last() == '\n');
    assert(lines_scan(p) == (la.push(strip_cr(ca)), Seq::<char>::empty()));
    lemma_lines_scan_append(p, b);
    let (lb, cb) = lines_scan(b);
    let joined_lines = la.push(strip_cr(ca)) + split_lines(b);
    assert(split_lines(p + b) == joined_lines) by {
        if cb.len() > 0 {
            assert((la.push(strip_cr(ca)) + lb).push(cb) == la.push(strip_cr(ca)) + lb.push(cb));
        }
    }
    lemma_line_words_append(la.push(strip_cr(ca)), split_lines(b));
    assert(la.push(strip_cr(ca)).drop_last() == la);
    lemma_strip_cr_words(ca);
    assert(line_words(la.push(strip_cr(ca))) == source_words(a)) by {
        if ca.len() > 0 {
            assert(la.push(ca).drop_last() == la);
        } else {
            assert(strip_cr(ca) == ca);
            assert(before_comment(ca) == ca) by {
                assert(!exists|i: int| comment_at(ca, i));
            }
            assert(split_ws(ca) == Seq::<Seq<char>>::empty());
            assert(line_words(la) + Seq::<Seq<char>>::empty() == line_words(la));
        }
    }
    assert(source_words(p + b) == source_words(a) + source_words(b));
    lemma_classify_all_append(source_words(a), source_words(b));
}

/// The tokens read from a source text.
#[derive(Debug, Clone)]
pub struct Tokenizer {
    tokens: Vec<Token>,
}

impl View for Tokenizer {
    type V = Seq<TokenView>;

    closed spec fn view(&self) -> Seq<TokenView> {
        token_views(self.tokens@)
    }
}

impl Tokenizer {
    /// Copies of the tokens, in order.
    pub fn get_tokens(&self) -> (r: Vec<Token>)
        ensures
            token_views(r@) == self@,
    {
        duplicate_tokens(&self.tokens)
    }

    /// The number of tokens.
    pub fn len(&self) -> (r: usize)
        ensures
            r == self@.len(),
    {
        self.tokens.len()
    }

    /// Tokenizes `lines`: every line is cut at its first `"--"`, the rest is
    /// split at whitespace, and each word becomes one token. `None` where a word
    /// cannot be read (a quoted text whose first or last character is not one
    /// byte, a number that does not parse).
    pub fn try_tokenize(lines: String) -> (r: Option<Self>)
        ensures
            r is Some <==> tokenize_text(lines@) is Some,
            r matches Some(t) ==> t@ == tokenize_text(lines@)->0,
    {
        let words = words_of(lines.as_str());
        let ghost ws = source_words(lines@);
        let mut tokens: Vec<Token> = Vec::new();
        let mut i: usize = 0;
        while i < words.len()
            invariant
                ws == source_words(lines@),
                words@.len() == ws.len(),
                forall|k: int| 0 <= k < words@.len() ==> (#[trigger] words@[k])@ == ws[k],
                i <= words@.len(),
                classify_all(ws.take(i as int)) == Some(token_views(tokens@)),
            decreases words@.len() - i,
        {
            assert(ws.take(i + 1).drop_last() == ws.take(i as int));
            assert(ws.take(i + 1).last() == ws[i as int]);
            match classify_word(words[i].as_slice()) {
                Some(t) => {
                    let ghost before = tokens@;
                    tokens.push(t);
                    assert(token_views(tokens@) =~= token_views(before).push(t@));
                },
                None => {
                    proof {
                        let pre = ws.take(i + 1);
                        assert(pre.drop_last() == ws.take(i as int));
                        assert(pre.last() == ws[i as int]);
                        assert(classify_all(pre) is None);
                        if classify_all(ws) is Some {
                            lemma_classify_all_prefix(ws, i + 1);
                        }
                    }
                    return None;
                },
            }
            i = i + 1;
        }
        assert(ws.take(words@.len() as int) == ws);
        Some(Tokenizer { tokens })
    }

    /// Tokenizes `lines`, which must be readable (see [`Tokenizer::try_tokenize`]).
    pub fn tokenize(lines: String) -> (r: Self)
        requires
            tokenize_text(lines@) is Some,
        ensures
            r@ == tokenize_text(lines@)->0,
    {
        match Self::try_tokenize(lines) {
            Some(t) => t,
            None => Tokenizer { tokens: Vec::new() },
        }
    }
}

} // verus!
