use vstd::prelude::*;

use crate::error::ParseError;
use crate::parsing::toks;
use crate::text::{chars_of, string_of};
use crate::token::{Token, TokenKind};

verus! {

/// `a` in front of the result `r`, if there is one.
pub open spec fn prefixed<A>(a: Seq<A>, r: Option<Seq<A>>) -> Option<Seq<A>> {
    match r {
        Some(x) => Some(a + x),
        None => None,
    }
}

proof fn lemma_prefixed_twice<A>(a: Seq<A>, b: Seq<A>, r: Option<Seq<A>>)
    ensures
        prefixed(a, prefixed(b, r)) == prefixed(a + b, r),
{
    if let Some(x) = r {
        assert(a + (b + x) =~= (a + b) + x);
    }
}

/// `s` from position `i` on with its block comments (`#*` to `*#`) each
/// replaced by one space; `inside` says whether position `i` lies in a
/// comment. `None` where an opener meets an opener, a closer appears outside
/// a comment, or the text ends inside one.
pub open spec fn stripped(s: Seq<char>, i: int, inside: bool) -> Option<Seq<char>>
    decreases s.len() - i,
{
    if i >= s.len() || i < 0 {
        if inside {
            None
        } else {
            Some(seq![])
        }
    } else if i + 1 < s.len() && s[i] == '#' && s[i + 1] == '*' {
        if inside {
            None
        } else {
            prefixed(seq![' '], stripped(s, i + 2, true))
        }
    } else if i + 1 < s.len() && s[i] == '*' && s[i + 1] == '#' {
        if inside {
            stripped(s, i + 2, false)
        } else {
            None
        }
    } else if inside {
        stripped(s, i + 1, true)
    } else {
        prefixed(seq![s[i]], stripped(s, i + 1, false))
    }
}

fn remove_comments(s: &Vec<char>) -> (r: Result<Vec<char>, ParseError>)
    ensures
        match stripped(s@, 0, false) {
            Some(t) => r is Ok && r->Ok_0@ == t,
            None => r == Err::<Vec<char>, ParseError>(ParseError::MalformedComment),
        },
{
    let ghost whole = stripped(s@, 0, false);
    let mut out: Vec<char> = Vec::new();
    let mut inside = false;
    let mut i: usize = 0;
    assert(whole == prefixed(out@, stripped(s@, 0, false))) by {
        if let Some(x) = whole {
            assert(out@ + x =~= x);
        }
    }
    while i < s.len()
        invariant
            whole == stripped(s@, 0, false),
            i <= s@.len(),
            whole == prefixed(out@, stripped(s@, i as int, inside)),
        decreases s@.len() - i,
    {
        let ghost o = out@;
        if i + 1 < s.len() && s[i] == '#' && s[i + 1] == '*' {
            if inside {
                return Err(ParseError::MalformedComment);
            }
            out.push(' ');
            proof { lemma_prefixed_twice(o, seq![' '], stripped(s@, i + 2, true)); }
            assert(o + seq![' '] =~= out@);
            inside = true;
            i += 2;
        } else if i + 1 < s.len() && s[i] == '*' && s[i + 1] == '#' {
            if !inside {
                return Err(ParseError::MalformedComment);
            }
            inside = false;
            i += 2;
        } else {
            if !inside {
                out.push(s[i]);
                proof { lemma_prefixed_twice(o, seq![s@[i as int]], stripped(s@, i + 1, false)); }
                assert(o + seq![s@[i as int]] =~= out@);
            }
            i += 1;
        }
    }
    if inside {
        return Err(ParseError::MalformedComment);
    }
    assert(out@ + seq![] =~= out@);
    Ok(out)
}

/// The characters that stand as a symbol on their own.
pub open spec fn single_symbol(c: char) -> bool {
    c == '$' || c == ';' || c == ':' || c == '=' || c == '\'' || c == '*' || c == ',' || c == '+'
        || c == '|' || c == '@' || c == '.' || c == '!' || c == '(' || c == ')' || c == '['
        || c == ']' || c == '{' || c == '}'
}

/// A two-character symbol (`->` or `~>`) starts at position `i`.
pub open spec fn pair_symbol(s: Seq<char>, i: int) -> bool {
    0 <= i && i + 1 < s.len() && (s[i] == '-' || s[i] == '~') && s[i + 1] == '>'
}

/// Unicode white space, as `char::is_whitespace` has it.
pub open spec fn is_space(c: char) -> bool {
    let u = c as u32;
    (9 <= u <= 13) || u == 32 || u == 0x85 || u == 0xA0 || u == 0x1680 || (0x2000 <= u <= 0x200A)
        || u == 0x2028 || u == 0x2029 || u == 0x202F || u == 0x205F || u == 0x3000
}

/// The kind of a reserved word or symbol.
pub open spec fn symbol_kind(w: Seq<char>) -> Option<TokenKind> {
    if w.len() == 7 && w[0] == 'i' && w[1] == 'n' && w[2] == 'c' && w[3] == 'l' && w[4] == 'u'
        && w[5] == 'd' && w[6] == 'e' {
        Some(TokenKind::Include)
    } else if w.len() == 4 && w[0] == 'l' && w[1] == 'o' && w[2] == 'a' && w[3] == 'd' {
        Some(TokenKind::Load)
    } else if w.len() == 2 && w[0] == '-' && w[1] == '>' {
        Some(TokenKind::Function)
    } else if w.len() == 2 && w[0] == '~' && w[1] == '>' {
        Some(TokenKind::Lambda)
    } else if w.len() == 1 {
        let c = w[0];
        if c == '$' {
            Some(TokenKind::Let)
        } else if c == ';' {
            Some(TokenKind::LetEnd)
        } else if c == ':' {
            Some(TokenKind::Type)
        } else if c == '=' {
            Some(TokenKind::Eq)
        } else if c == '*' {
            Some(TokenKind::Prod)
        } else if c == ',' {
            Some(TokenKind::Tuple)
        } else if c == '+' {
            Some(TokenKind::Sum)
        } else if c == '|' {
            Some(TokenKind::Cases)
        } else if c == '@' {
            Some(TokenKind::Universe)
        } else if c == '.' {
            Some(TokenKind::Top)
        } else if c == '!' {
            Some(TokenKind::Bottom)
        } else if c == '(' {
            Some(TokenKind::OpenBracket)
        } else if c == ')' {
            Some(TokenKind::CloseBracket)
        } else if c == '[' {
            Some(TokenKind::OpenSquear)
        } else if c == ']' {
            Some(TokenKind::CloseSquear)
        } else if c == '{' {
            Some(TokenKind::OpenCurly)
        } else if c == '}' {
            Some(TokenKind::CloseCurly)
        } else {
            None
        }
    } else {
        None
    }
}

pub open spec fn is_digit(c: char) -> bool {
    48 <= (c as u32) <= 57
}

/// The number written by the decimal digits `d`.
pub open spec fn digits_value(d: Seq<char>) -> nat
    decreases d.len(),
{
    if d.len() == 0 {
        0
    } else {
        digits_value(d.drop_last()) * 10 + ((d.last() as u32) - 48) as nat
    }
}

/// `w` is what `str::parse::<i32>` accepts: an optional sign, at least one
/// decimal digit, and a value within the range of `i32`.
pub open spec fn is_i32_text(w: Seq<char>) -> bool {
    let d = unsigned_part(w);
    &&& d.len() > 0
    &&& all_digits(d)
    &&& digits_value(d) <= if w.len() > 0 && w[0] == '-' {
        2147483648nat
    } else {
        2147483647nat
    }
}

/// `w` without its leading sign, if it has one.
pub open spec fn unsigned_part(w: Seq<char>) -> Seq<char> {
    if w.len() > 0 && (w[0] == '-' || w[0] == '+') {
        w.drop_first()
    } else {
        w
    }
}

pub open spec fn all_digits(d: Seq<char>) -> bool {
    forall|k: int| 0 <= k < d.len() ==> is_digit(#[trigger] d[k])
}

/// The token that a word or symbol stands for.
pub open spec fn classify(w: Seq<char>) -> (Seq<char>, TokenKind) {
    match symbol_kind(w) {
        Some(k) => (w, k),
        None => if is_i32_text(w) {
            (w, TokenKind::Int)
        } else {
            (w, TokenKind::Name)
        },
    }
}


fn symbol_kind_of(w: &Vec<char>) -> (r: Option<TokenKind>)
    ensures
        r == symbol_kind(w@),
{
    let n = w.len();
    if n == 7 && w[0] == 'i' && w[1] == 'n' && w[2] == 'c' && w[3] == 'l' && w[4] == 'u' && w[5]
        == 'd' && w[6] == 'e' {
        Some(TokenKind::Include)
    } else if n == 4 && w[0] == 'l' && w[1] == 'o' && w[2] == 'a' && w[3] == 'd' {
        Some(TokenKind::Load)
    } else if n == 2 && w[0] == '-' && w[1] == '>' {
        Some(TokenKind::Function)
    } else if n == 2 && w[0] == '~' && w[1] == '>' {
        Some(TokenKind::Lambda)
    } else if n == 1 {
        let c = w[0];
        if c == '$' {
            Some(TokenKind::Let)
        } else if c == ';' {
            Some(TokenKind::LetEnd)
        } else if c == ':' {
            Some(TokenKind::Type)
        } else if c == '=' {
            Some(TokenKind::Eq)
        } else if c == '*' {
            Some(TokenKind::Prod)
        } else if c == ',' {
            Some(TokenKind::Tuple)
        } else if c == '+' {
            Some(TokenKind::Sum)
        } else if c == '|' {
            Some(TokenKind::Cases)
        } else if c == '@' {
            Some(TokenKind::Universe)
        } else if c == '.' {
            Some(TokenKind::Top)
        } else if c == '!' {
            Some(TokenKind::Bottom)
        } else if c == '(' {
            Some(TokenKind::OpenBracket)
        } else if c == ')' {
            Some(TokenKind::CloseBracket)
        } else if c == '[' {
            Some(TokenKind::OpenSquear)
        } else if c == ']' {
            Some(TokenKind::CloseSquear)
        } else if c == '{' {
            Some(TokenKind::OpenCurly)
        } else if c == '}' {
            Some(TokenKind::CloseCurly)
        } else {
            None
        }
    } else {
        None
    }
}

proof fn lemma_digits_grow(d: Seq<char>, i: int)
    requires
        0 <= i < d.len(),
        is_digit(d[i]),
    ensures
        digits_value(d.take(i + 1)) == digits_value(d.take(i)) * 10 + ((d[i] as u32) - 48) as nat,
        digits_value(d.take(i + 1)) >= digits_value(d.take(i)),
{
    assert(d.take(i + 1).drop_last() =~= d.take(i));
}

fn is_digit_char(c: char) -> (r: bool)
    ensures
        r == is_digit(c),
{
    let u = c as u32;
    48 <= u && u <= 57
}

/// Whether `w` reads as an `i32` (see `is_i32_text`).
fn is_int_literal(w: &Vec<char>) -> (r: bool)
    ensures
        r == is_i32_text(w@),
{
    let n = w.len();
    let signed = n > 0 && (w[0] == '-' || w[0] == '+');
    let negative = n > 0 && w[0] == '-';
    let start: usize = if signed { 1 } else { 0 };
    let ghost d = unsigned_part(w@);
    assert(d.len() == n - start);
    assert(forall|k: int| 0 <= k < d.len() ==> d[k] == w@[k + start]);
    if start >= n {
        return false;
    }
    let limit: u64 = if negative { 2147483648 } else { 2147483647 };
    let mut acc: u64 = 0;
    let mut over = false;
    let mut i: usize = start;
    assert(d.take(0) =~= seq![]);
    while i < n
        invariant
            n == w@.len(),
            start <= i <= n,
            d.len() == n - start,
            forall|k: int| 0 <= k < d.len() ==> d[k] == w@[k + start],
            forall|k: int| 0 <= k < i - start ==> is_digit(#[trigger] d[k]),
            !over ==> acc as nat == digits_value(d.take(i - start)) && acc <= limit,
            over ==> digits_value(d.take(i - start)) > limit,
            limit <= 2147483648,
            signed == (n > 0 && (w@[0] == '-' || w@[0] == '+')),
            negative == (n > 0 && w@[0] == '-'),
            limit == if negative { 2147483648u64 } else { 2147483647u64 },
            start == if signed { 1usize } else { 0usize },
            d == unsigned_part(w@),
        decreases n - i,
    {
        let c = w[i];
        if !is_digit_char(c) {
            assert(c == d[i - start]);
            assert(!all_digits(d));
            return false;
        }
        proof { lemma_digits_grow(d, i - start); }
        assert((i + 1 - start) as int == (i - start) as int + 1);
        if !over {
            let next = acc * 10 + ((c as u32) - 48) as u64;
            if next > limit {
                over = true;
            } else {
                acc = next;
            }
        }
        i += 1;
    }
    assert(d.take(n - start) =~= d);
    !over
}

/// The token that the word or symbol `raw_token` stands for.
fn token_analyse(raw_token: &Vec<char>) -> (r: Token)
    ensures
        r@ == classify(raw_token@),
{
    let text = string_of(raw_token);
    match symbol_kind_of(raw_token) {
        Some(k) => Token::new(text, k),
        None => if is_int_literal(raw_token) {
            Token::new(text, TokenKind::Int)
        } else {
            Token::new(text, TokenKind::Name)
        },
    }
}


/// The token for a pending word, if there is one.
pub open spec fn flush(cur: Seq<char>) -> Seq<(Seq<char>, TokenKind)> {
    if cur.len() == 0 {
        seq![]
    } else {
        seq![classify(cur)]
    }
}

/// The tokens of the comment-free text `s` from position `i` on, where `lit`
/// says whether position `i` lies in a string literal and `cur` holds the
/// word (or literal contents) read so far. `None` where a string literal is
/// left open.
pub open spec fn lexed(s: Seq<char>, i: int, lit: bool, cur: Seq<char>) -> Option<
    Seq<(Seq<char>, TokenKind)>,
>
    decreases s.len() - i,
{
    if i >= s.len() || i < 0 {
        if lit {
            None
        } else {
            Some(flush(cur))
        }
    } else if lit {
        if s[i] == '/' {
            prefixed(seq![(cur, TokenKind::StringLiteral)], lexed(s, i + 1, false, seq![]))
        } else {
            lexed(s, i + 1, true, cur.push(s[i]))
        }
    } else if s[i] == '/' {
        prefixed(flush(cur), lexed(s, i + 1, true, seq![]))
    } else if pair_symbol(s, i) {
        prefixed(flush(cur).push(classify(s.subrange(i, i + 2))), lexed(s, i + 2, false, seq![]))
    } else if single_symbol(s[i]) {
        prefixed(flush(cur).push(classify(seq![s[i]])), lexed(s, i + 1, false, seq![]))
    } else if is_space(s[i]) {
        prefixed(flush(cur), lexed(s, i + 1, false, seq![]))
    } else {
        lexed(s, i + 1, false, cur.push(s[i]))
    }
}

/// The outcome of tokenizing the text `s`.
pub open spec fn tokenized(s: Seq<char>) -> Result<Seq<(Seq<char>, TokenKind)>, ParseError> {
    match stripped(s, 0, false) {
        None => Err(ParseError::MalformedComment),
        Some(u) => match lexed(u, 0, false, seq![]) {
            None => Err(ParseError::UnterminatedString),
            Some(ts) => Ok(ts),
        },
    }
}

fn is_single_symbol(c: char) -> (r: bool)
    ensures
        r == single_symbol(c),
{
    c == '$' || c == ';' || c == ':' || c == '=' || c == '\'' || c == '*' || c == ',' || c == '+'
        || c == '|' || c == '@' || c == '.' || c == '!' || c == '(' || c == ')' || c == '['
        || c == ']' || c == '{' || c == '}'
}

fn is_white_space(c: char) -> (r: bool)
    ensures
        r == is_space(c),
{
    let u = c as u32;
    (9 <= u && u <= 13) || u == 32 || u == 0x85 || u == 0xA0 || u == 0x1680 || (0x2000 <= u && u
        <= 0x200A) || u == 0x2028 || u == 0x2029 || u == 0x202F || u == 0x205F || u == 0x3000
}

/// Appends the token of the pending word `cur`, if any, and empties it.
fn flush_word(out: &mut Vec<Token>, cur: &mut Vec<char>)
    ensures
        toks(final(out)@) == toks(old(out)@) + flush(old(cur)@),
        final(cur)@ == Seq::<char>::empty(),
{
    if cur.len() > 0 {
        let t = token_analyse(cur);
        out.push(t);
        assert(toks(out@) =~= toks(old(out)@) + flush(old(cur)@));
    } else {
        assert(toks(out@) =~= toks(old(out)@) + flush(old(cur)@));
    }
    *cur = Vec::new();
}

/// Splits comment-free text into tokens: string literals between `/`
/// delimiters verbatim, elsewhere symbols and white-space separated words.
fn split_tokens(s: &Vec<char>) -> (r: Result<Vec<Token>, ParseError>)
    ensures
        match lexed(s@, 0, false, seq![]) {
            Some(ts) => r is Ok && toks(r->Ok_0@) == ts,
            None => r == Err::<Vec<Token>, ParseError>(ParseError::UnterminatedString),
        },
{
    let ghost whole = lexed(s@, 0, false, seq![]);
    let mut out: Vec<Token> = Vec::new();
    let mut cur: Vec<char> = Vec::new();
    let mut lit = false;
    let mut i: usize = 0;
    assert(whole == prefixed(toks(out@), lexed(s@, 0, false, cur@))) by {
        assert(toks(out@) =~= seq![]);
        assert(cur@ =~= seq![]);
        if let Some(x) = whole {
            assert(seq![] + x =~= x);
        }
    }
    while i < s.len()
        invariant
            whole == lexed(s@, 0, false, seq![]),
            i <= s@.len(),
            whole == prefixed(toks(out@), lexed(s@, i as int, lit, cur@)),
        decreases s@.len() - i,
    {
        let ghost o = toks(out@);
        let ghost w = cur@;
        let c = s[i];
        if lit {
            if c == '/' {
                let t = Token::new(string_of(&cur), TokenKind::StringLiteral);
                out.push(t);
                proof {
                    lemma_prefixed_twice(o, seq![(w, TokenKind::StringLiteral)], lexed(s@, i + 1, false, seq![]));
                    assert(toks(out@) =~= o + seq![(w, TokenKind::StringLiteral)]);
                }
                cur = Vec::new();
                lit = false;
                assert(cur@ =~= seq![]);
            } else {
                cur.push(c);
            }
            i += 1;
        } else if c == '/' {
            flush_word(&mut out, &mut cur);
            proof { lemma_prefixed_twice(o, flush(w), lexed(s@, i + 1, true, seq![])); }
            lit = true;
            i += 1;
        } else if i + 1 < s.len() && (c == '-' || c == '~') && s[i + 1] == '>' {
            flush_word(&mut out, &mut cur);
            let pair = vec![c, s[i + 1]];
            assert(pair@ =~= s@.subrange(i as int, i + 2));
            let t = token_analyse(&pair);
            let ghost o2 = toks(out@);
            out.push(t);
            assert(toks(out@) =~= o2.push(t@));
            proof {
                lemma_prefixed_twice(o, flush(w).push(classify(s@.subrange(i as int, i + 2))), lexed(s@, i + 2, false, seq![]));
                assert(toks(out@) =~= o + flush(w).push(classify(s@.subrange(i as int, i + 2))));
            }
            i += 2;
        } else if is_single_symbol(c) {
            flush_word(&mut out, &mut cur);
            let single = vec![c];
            assert(single@ =~= seq![s@[i as int]]);
            let t = token_analyse(&single);
            let ghost o2 = toks(out@);
            out.push(t);
            assert(toks(out@) =~= o2.push(t@));
            proof {
                lemma_prefixed_twice(o, flush(w).push(classify(seq![s@[i as int]])), lexed(s@, i + 1, false, seq![]));
                assert(toks(out@) =~= o + flush(w).push(classify(seq![s@[i as int]])));
            }
            i += 1;
        } else if is_white_space(c) {
            flush_word(&mut out, &mut cur);
            proof { lemma_prefixed_twice(o, flush(w), lexed(s@, i + 1, false, seq![])); }
            i += 1;
        } else {
            cur.push(c);
            i += 1;
        }
    }
    if lit {
        return Err(ParseError::UnterminatedString);
    }
    let ghost o = toks(out@);
    let ghost w = cur@;
    flush_word(&mut out, &mut cur);
    proof {
        assert(o + flush(w) =~= toks(out@));
    }
    Ok(out)
}

/// Turns source text into its sequence of tokens.
pub fn tokenize(program_text: String) -> (r: Result<Vec<Token>, ParseError>)
    ensures
        match tokenized(program_text@) {
            Ok(ts) => r is Ok && toks(r->Ok_0@) == ts,
            Err(e) => r == Err::<Vec<Token>, ParseError>(e),
        },
{
    let chars = chars_of(program_text.as_str());
    let plain = remove_comments(&chars)?;
    split_tokens(&plain)
}

} // verus!
