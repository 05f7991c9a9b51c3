use vstd::prelude::*;

verus! {

/// The kinds of token of the expression language.
#[derive(Clone, Copy, PartialEq, Eq, Structural)]
pub enum Kind {
    Power,
    Plus,
    Minus,
    Times,
    Divide,
    LBracket,
    RBracket,
    Dot,
    LParen,
    RParen,
    LBrace,
    RBrace,
    Colon,
    Comma,
    GreaterEq,
    LessEq,
    Less,
    Greater,
    Equal,
    NotEqual,
    Not,
    And,
    Or,
    True,
    False,
    In,
    Null,
    Number,
    Identifier,
    Str,
}

/// A token: its kind and the character positions `start..end` of its text.
#[derive(Clone, Copy)]
pub struct Token {
    pub kind: Kind,
    pub start: usize,
    pub end: usize,
}

/// A token as the specification sees it.
pub struct Tok {
    pub kind: Kind,
    pub start: int,
    pub end: int,
}

impl View for Token {
    type V = Tok;

    open spec fn view(&self) -> Tok {
        Tok { kind: self.kind, start: self.start as int, end: self.end as int }
    }
}

/// What the scanner finds from a position on: the end of the input, a
/// token, or text that no token matches (at the given position).
pub enum Scan {
    End,
    Found(Token),
    Unmatched(usize),
}

pub enum ScanModel {
    End,
    Found(Tok),
    Unmatched(int),
}

impl View for Scan {
    type V = ScanModel;

    open spec fn view(&self) -> ScanModel {
        match self {
            Scan::End => ScanModel::End,
            Scan::Found(t) => ScanModel::Found(t@),
            Scan::Unmatched(p) => ScanModel::Unmatched(*p as int),
        }
    }
}

/// White space as Unicode defines it (the `White_Space` property), which
/// separates tokens.
pub open spec fn is_space(c: char) -> bool {
    ||| '\u{9}' <= c <= '\u{d}'
    ||| c == ' '
    ||| c == '\u{85}'
    ||| c == '\u{a0}'
    ||| c == '\u{1680}'
    ||| '\u{2000}' <= c <= '\u{200a}'
    ||| c == '\u{2028}'
    ||| c == '\u{2029}'
    ||| c == '\u{202f}'
    ||| c == '\u{205f}'
    ||| c == '\u{3000}'
}

pub open spec fn is_digit(c: char) -> bool {
    '0' <= c <= '9'
}

pub open spec fn is_word_start(c: char) -> bool {
    ('a' <= c <= 'z') || ('A' <= c <= 'Z') || c == '_'
}

pub open spec fn is_word_char(c: char) -> bool {
    is_word_start(c) || is_digit(c)
}

/// The character at `i`, or NUL past either end.
pub open spec fn char_at(s: Seq<char>, i: int) -> char {
    if 0 <= i < s.len() {
        s[i]
    } else {
        '\0'
    }
}

/// The first position from `i` on that does not hold white space.
pub open spec fn skip_space(s: Seq<char>, i: int) -> int
    decreases s.len() - i,
{
    if 0 <= i < s.len() && is_space(s[i]) {
        skip_space(s, i + 1)
    } else {
        i
    }
}

/// The first position from `i` on that does not hold a digit.
pub open spec fn digits_end(s: Seq<char>, i: int) -> int
    decreases s.len() - i,
{
    if 0 <= i < s.len() && is_digit(s[i]) {
        digits_end(s, i + 1)
    } else {
        i
    }
}

/// The first position from `i` on that does not hold a word character.
pub open spec fn word_end(s: Seq<char>, i: int) -> int
    decreases s.len() - i,
{
    if 0 <= i < s.len() && is_word_char(s[i]) {
        word_end(s, i + 1)
    } else {
        i
    }
}

/// The first position from `i` on that holds `q`, or the length of `s`.
pub open spec fn quote_end(s: Seq<char>, i: int, q: char) -> int
    decreases s.len() - i,
{
    if 0 <= i < s.len() && s[i] != q {
        quote_end(s, i + 1, q)
    } else {
        i
    }
}

/// The kind of a word: one of the four keywords, or an identifier.
pub open spec fn word_kind(w: Seq<char>) -> Kind {
    if w == seq!['t', 'r', 'u', 'e'] {
        Kind::True
    } else if w == seq!['f', 'a', 'l', 's', 'e'] {
        Kind::False
    } else if w == seq!['i', 'n'] {
        Kind::In
    } else if w == seq!['n', 'u', 'l', 'l'] {
        Kind::Null
    } else {
        Kind::Identifier
    }
}

/// The token that starts at `p`, which holds no white space: its kind and
/// end, or `None` where no token matches.
pub open spec fn match_at(s: Seq<char>, p: int) -> Option<(Kind, int)> {
    let c = char_at(s, p);
    let d = char_at(s, p + 1);
    if c == '*' {
        if d == '*' {
            Some((Kind::Power, p + 2))
        } else {
            Some((Kind::Times, p + 1))
        }
    } else if c == '+' {
        Some((Kind::Plus, p + 1))
    } else if c == '-' {
        Some((Kind::Minus, p + 1))
    } else if c == '/' {
        Some((Kind::Divide, p + 1))
    } else if c == '[' {
        Some((Kind::LBracket, p + 1))
    } else if c == ']' {
        Some((Kind::RBracket, p + 1))
    } else if c == '.' {
        Some((Kind::Dot, p + 1))
    } else if c == '(' {
        Some((Kind::LParen, p + 1))
    } else if c == ')' {
        Some((Kind::RParen, p + 1))
    } else if c == '{' {
        Some((Kind::LBrace, p + 1))
    } else if c == '}' {
        Some((Kind::RBrace, p + 1))
    } else if c == ':' {
        Some((Kind::Colon, p + 1))
    } else if c == ',' {
        Some((Kind::Comma, p + 1))
    } else if c == '>' {
        if d == '=' {
            Some((Kind::GreaterEq, p + 2))
        } else {
            Some((Kind::Greater, p + 1))
        }
    } else if c == '<' {
        if d == '=' {
            Some((Kind::LessEq, p + 2))
        } else {
            Some((Kind::Less, p + 1))
        }
    } else if c == '=' {
        if d == '=' {
            Some((Kind::Equal, p + 2))
        } else {
            None
        }
    } else if c == '!' {
        if d == '=' {
            Some((Kind::NotEqual, p + 2))
        } else {
            Some((Kind::Not, p + 1))
        }
    } else if c == '&' {
        if d == '&' {
            Some((Kind::And, p + 2))
        } else {
            None
        }
    } else if c == '|' {
        if d == '|' {
            Some((Kind::Or, p + 2))
        } else {
            None
        }
    } else if is_digit(c) {
        let e = digits_end(s, p);
        if char_at(s, e) == '.' && is_digit(char_at(s, e + 1)) {
            Some((Kind::Number, digits_end(s, e + 1)))
        } else {
            Some((Kind::Number, e))
        }
    } else if is_word_start(c) {
        let e = word_end(s, p);
        Some((word_kind(s.subrange(p, e)), e))
    } else if c == '\'' || c == '"' {
        let q = quote_end(s, p + 1, c);
        if q < s.len() {
            Some((Kind::Str, q + 1))
        } else {
            None
        }
    } else {
        None
    }
}

/// What the scanner finds from offset `o` on: white space is skipped, then
/// the token that starts there is taken.
pub open spec fn scan(s: Seq<char>, o: int) -> ScanModel {
    let p = skip_space(s, o);
    if p >= s.len() {
        ScanModel::End
    } else {
        match match_at(s, p) {
            Some((k, e)) => ScanModel::Found(Tok { kind: k, start: p, end: e }),
            None => ScanModel::Unmatched(p),
        }
    }
}

pub proof fn lemma_skip_space(s: Seq<char>, i: int)
    requires
        0 <= i <= s.len(),
    ensures
        i <= skip_space(s, i) <= s.len(),
        skip_space(s, i) < s.len() ==> !is_space(s[skip_space(s, i)]),
    decreases s.len() - i,
{
    if i < s.len() && is_space(s[i]) {
        lemma_skip_space(s, i + 1);
    }
}

pub proof fn lemma_digits_end(s: Seq<char>, i: int)
    requires
        0 <= i <= s.len(),
    ensures
        i <= digits_end(s, i) <= s.len(),
    decreases s.len() - i,
{
    if i < s.len() && is_digit(s[i]) {
        lemma_digits_end(s, i + 1);
    }
}

pub proof fn lemma_word_end(s: Seq<char>, i: int)
    requires
        0 <= i <= s.len(),
    ensures
        i <= word_end(s, i) <= s.len(),
    decreases s.len() - i,
{
    if i < s.len() && is_word_char(s[i]) {
        lemma_word_end(s, i + 1);
    }
}

/// Every character from `i` up to `word_end(s, i)` is a word character, and
/// the one there, if any, is not.
pub proof fn lemma_word_end_chars(s: Seq<char>, i: int)
    requires
        0 <= i <= s.len(),
    ensures
        forall|j: int| i <= j < word_end(s, i) ==> #[trigger] is_word_char(s[j]),
        word_end(s, i) < s.len() ==> !is_word_char(s[word_end(s, i)]),
    decreases s.len() - i,
{
    if i < s.len() && is_word_char(s[i]) {
        lemma_word_end_chars(s, i + 1);
    }
}

/// Every character from `i` up to `digits_end(s, i)` is a digit, and the
/// one there, if any, is not.
pub proof fn lemma_digits_end_chars(s: Seq<char>, i: int)
    requires
        0 <= i <= s.len(),
    ensures
        forall|j: int| i <= j < digits_end(s, i) ==> #[trigger] is_digit(s[j]),
        digits_end(s, i) < s.len() ==> !is_digit(s[digits_end(s, i)]),
    decreases s.len() - i,
{
    if i < s.len() && is_digit(s[i]) {
        lemma_digits_end_chars(s, i + 1);
    }
}

/// No character from `i` up to `quote_end(s, i, q)` is `q`.
pub proof fn lemma_quote_end_chars(s: Seq<char>, i: int, q: char)
    requires
        0 <= i <= s.len(),
    ensures
        forall|j: int| i <= j < quote_end(s, i, q) ==> #[trigger] s[j] != q,
    decreases s.len() - i,
{
    if i < s.len() && s[i] != q {
        lemma_quote_end_chars(s, i + 1, q);
    }
}

pub proof fn lemma_quote_end(s: Seq<char>, i: int, q: char)
    requires
        0 <= i <= s.len(),
    ensures
        i <= quote_end(s, i, q) <= s.len(),
        quote_end(s, i, q) < s.len() ==> s[quote_end(s, i, q)] == q,
    decreases s.len() - i,
{
    if i < s.len() && s[i] != q {
        lemma_quote_end(s, i + 1, q);
    }
}

/// A token lies within the input, after the offset, and is not empty; text
/// that matches nothing lies within the input after the offset too.
pub proof fn lemma_scan_bounds(s: Seq<char>, o: int)
    requires
        0 <= o <= s.len(),
    ensures
        scan(s, o) matches ScanModel::Found(t) ==> o <= t.start < t.end <= s.len(),
        scan(s, o) matches ScanModel::Unmatched(p) ==> o <= p < s.len(),
        scan(s, o) matches ScanModel::Found(t) ==> (t.kind == Kind::Str ==> t.start + 2 <= t.end
            && (s[t.start] == '\'' || s[t.start] == '"') && s[t.end - 1] == s[t.start]),
{
    let p = skip_space(s, o);
    lemma_skip_space(s, o);
    if p < s.len() {
        let c = s[p];
        if is_digit(c) {
            lemma_digits_end(s, p + 1);
            assert(digits_end(s, p) == digits_end(s, p + 1));
            let e = digits_end(s, p);
            if char_at(s, e) == '.' && is_digit(char_at(s, e + 1)) {
                lemma_digits_end(s, e + 1);
            }
        } else if is_word_start(c) {
            lemma_word_end(s, p + 1);
            assert(word_end(s, p) == word_end(s, p + 1));
        } else if c == '\'' || c == '"' {
            lemma_quote_end(s, p + 1, c);
        }
    }
}

fn is_space_char(c: char) -> (r: bool)
    ensures
        r == is_space(c),
{
    ('\u{9}' <= c && c <= '\u{d}') || c == ' ' || c == '\u{85}' || c == '\u{a0}' || c == '\u{1680}'
        || ('\u{2000}' <= c && c <= '\u{200a}') || c == '\u{2028}' || c == '\u{2029}' || c
        == '\u{202f}' || c == '\u{205f}' || c == '\u{3000}'
}

fn is_digit_char(c: char) -> (r: bool)
    ensures
        r == is_digit(c),
{
    '0' <= c && c <= '9'
}

fn is_word_start_char(c: char) -> (r: bool)
    ensures
        r == is_word_start(c),
{
    ('a' <= c && c <= 'z') || ('A' <= c && c <= 'Z') || c == '_'
}

fn is_word_char_exec(c: char) -> (r: bool)
    ensures
        r == is_word_char(c),
{
    is_word_start_char(c) || is_digit_char(c)
}

fn char_at_exec(s: &Vec<char>, i: usize) -> (r: char)
    ensures
        r == char_at(s@, i as int),
{
    if i < s.len() {
        s[i]
    } else {
        '\0'
    }
}

fn skip_space_exec(s: &Vec<char>, i: usize) -> (r: usize)
    requires
        i <= s.len(),
    ensures
        r == skip_space(s@, i as int),
{
    let mut j = i;
    while j < s.len() && is_space_char(s[j])
        invariant
            i <= j <= s.len(),
            skip_space(s@, i as int) == skip_space(s@, j as int),
        decreases s.len() - j,
    {
        j = j + 1;
    }
    j
}

fn digits_end_exec(s: &Vec<char>, i: usize) -> (r: usize)
    requires
        i <= s.len(),
    ensures
        r == digits_end(s@, i as int),
{
    let mut j = i;
    while j < s.len() && is_digit_char(s[j])
        invariant
            i <= j <= s.len(),
            digits_end(s@, i as int) == digits_end(s@, j as int),
        decreases s.len() - j,
    {
        j = j + 1;
    }
    j
}

fn word_end_exec(s: &Vec<char>, i: usize) -> (r: usize)
    requires
        i <= s.len(),
    ensures
        r == word_end(s@, i as int),
{
    let mut j = i;
    while j < s.len() && is_word_char_exec(s[j])
        invariant
            i <= j <= s.len(),
            word_end(s@, i as int) == word_end(s@, j as int),
        decreases s.len() - j,
    {
        j = j + 1;
    }
    j
}

fn quote_end_exec(s: &Vec<char>, i: usize, q: char) -> (r: usize)
    requires
        i <= s.len(),
    ensures
        r == quote_end(s@, i as int, q),
{
    let mut j = i;
    while j < s.len() && s[j] != q
        invariant
            i <= j <= s.len(),
            quote_end(s@, i as int, q) == quote_end(s@, j as int, q),
        decreases s.len() - j,
    {
        j = j + 1;
    }
    j
}

fn word_kind_exec(s: &Vec<char>, p: usize, e: usize) -> (r: Kind)
    requires
        p <= e <= s.len(),
    ensures
        r == word_kind(s@.subrange(p as int, e as int)),
{
    let w = Ghost(s@.subrange(p as int, e as int));
    let n = e - p;
    assert(seq!['t', 'r', 'u', 'e'].len() == 4 && seq!['t', 'r', 'u', 'e'][0] == 't' && seq!['t', 'r', 'u', 'e'][1] == 'r'
        && seq!['t', 'r', 'u', 'e'][2] == 'u' && seq!['t', 'r', 'u', 'e'][3] == 'e');
    assert(seq!['f', 'a', 'l', 's', 'e'].len() == 5 && seq!['f', 'a', 'l', 's', 'e'][0] == 'f' && seq!['f', 'a', 'l', 's', 'e'][1] == 'a'
        && seq!['f', 'a', 'l', 's', 'e'][2] == 'l' && seq!['f', 'a', 'l', 's', 'e'][3] == 's' && seq!['f', 'a', 'l', 's', 'e'][4] == 'e');
    assert(seq!['i', 'n'].len() == 2 && seq!['i', 'n'][0] == 'i' && seq!['i', 'n'][1] == 'n');
    assert(seq!['n', 'u', 'l', 'l'].len() == 4 && seq!['n', 'u', 'l', 'l'][0] == 'n' && seq!['n', 'u', 'l', 'l'][1] == 'u'
        && seq!['n', 'u', 'l', 'l'][2] == 'l' && seq!['n', 'u', 'l', 'l'][3] == 'l');
    if n == 4 && s[p] == 't' && s[p + 1] == 'r' && s[p + 2] == 'u' && s[p + 3] == 'e' {
        assert(w@ =~= seq!['t', 'r', 'u', 'e']);
        Kind::True
    } else if n == 5 && s[p] == 'f' && s[p + 1] == 'a' && s[p + 2] == 'l' && s[p + 3] == 's' && s[p
        + 4] == 'e' {
        assert(w@ =~= seq!['f', 'a', 'l', 's', 'e']);
        Kind::False
    } else if n == 2 && s[p] == 'i' && s[p + 1] == 'n' {
        assert(w@ =~= seq!['i', 'n']);
        Kind::In
    } else if n == 4 && s[p] == 'n' && s[p + 1] == 'u' && s[p + 2] == 'l' && s[p + 3] == 'l' {
        assert(w@ =~= seq!['n', 'u', 'l', 'l']);
        Kind::Null
    } else {
        proof {
            if w@ == seq!['t', 'r', 'u', 'e'] {
                assert(w@[0] == 't' && w@[1] == 'r' && w@[2] == 'u' && w@[3] == 'e');
            }
            if w@ == seq!['f', 'a', 'l', 's', 'e'] {
                assert(w@[0] == 'f' && w@[1] == 'a' && w@[2] == 'l' && w@[3] == 's' && w@[4] == 'e');
            }
            if w@ == seq!['i', 'n'] {
                assert(w@[0] == 'i' && w@[1] == 'n');
            }
            if w@ == seq!['n', 'u', 'l', 'l'] {
                assert(w@[0] == 'n' && w@[1] == 'u' && w@[2] == 'l' && w@[3] == 'l');
            }
        }
        Kind::Identifier
    }
}

fn one(kind: Kind, p: usize) -> (r: Option<(Kind, usize)>)
    requires
        p < usize::MAX,
    ensures
        r == Some((kind, (p + 1) as usize)),
{
    Some((kind, p + 1))
}

fn match_at_exec(s: &Vec<char>, p: usize) -> (r: Option<(Kind, usize)>)
    requires
        p < s.len(),
        s.len() < usize::MAX,
    ensures
        match (r, match_at(s@, p as int)) {
            (Some((k, e)), Some((k2, e2))) => k == k2 && e as int == e2,
            (None, None) => true,
            _ => false,
        },
{
    let c = s[p];
    let d = char_at_exec(s, p + 1);
    if c == '*' {
        if d == '*' {
            Some((Kind::Power, p + 2))
        } else {
            one(Kind::Times, p)
        }
    } else if c == '+' {
        one(Kind::Plus, p)
    } else if c == '-' {
        one(Kind::Minus, p)
    } else if c == '/' {
        one(Kind::Divide, p)
    } else if c == '[' {
        one(Kind::LBracket, p)
    } else if c == ']' {
        one(Kind::RBracket, p)
    } else if c == '.' {
        one(Kind::Dot, p)
    } else if c == '(' {
        one(Kind::LParen, p)
    } else if c == ')' {
        one(Kind::RParen, p)
    } else if c == '{' {
        one(Kind::LBrace, p)
    } else if c == '}' {
        one(Kind::RBrace, p)
    } else if c == ':' {
        one(Kind::Colon, p)
    } else if c == ',' {
        one(Kind::Comma, p)
    } else if c == '>' {
        if d == '=' {
            Some((Kind::GreaterEq, p + 2))
        } else {
            one(Kind::Greater, p)
        }
    } else if c == '<' {
        if d == '=' {
            Some((Kind::LessEq, p + 2))
        } else {
            one(Kind::Less, p)
        }
    } else if c == '=' {
        if d == '=' {
            Some((Kind::Equal, p + 2))
        } else {
            None
        }
    } else if c == '!' {
        if d == '=' {
            Some((Kind::NotEqual, p + 2))
        } else {
            one(Kind::Not, p)
        }
    } else if c == '&' {
        if d == '&' {
            Some((Kind::And, p + 2))
        } else {
            None
        }
    } else if c == '|' {
        if d == '|' {
            Some((Kind::Or, p + 2))
        } else {
            None
        }
    } else if is_digit_char(c) {
        let e = digits_end_exec(s, p);
        proof {
            lemma_digits_end(s@, p as int);
        }
        if char_at_exec(s, e) == '.' && e + 1 < s.len() && is_digit_char(s[e + 1]) {
            Some((Kind::Number, digits_end_exec(s, e + 1)))
        } else {
            Some((Kind::Number, e))
        }
    } else if is_word_start_char(c) {
        let e = word_end_exec(s, p);
        proof {
            lemma_word_end(s@, p as int);
        }
        Some((word_kind_exec(s, p, e), e))
    } else if c == '\'' || c == '"' {
        let q = quote_end_exec(s, p + 1, c);
        if q < s.len() {
            Some((Kind::Str, q + 1))
        } else {
            None
        }
    } else {
        None
    }
}

/// The scanner: what the input holds from offset `o` on.
pub fn next_token(s: &Vec<char>, o: usize) -> (r: Scan)
    requires
        o <= s.len(),
        s.len() < usize::MAX,
    ensures
        r@ == scan(s@, o as int),
{
    let p = skip_space_exec(s, o);
    proof {
        lemma_skip_space(s@, o as int);
    }
    if p >= s.len() {
        Scan::End
    } else {
        match match_at_exec(s, p) {
            Some((k, e)) => Scan::Found(Token { kind: k, start: p, end: e }),
            None => Scan::Unmatched(p),
        }
    }
}

} // verus!
