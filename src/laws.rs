use vstd::prelude::*;

use crate::error::ParseError;
use crate::parsing::{application_token, assembled, parsed, resolved, with_applications};
use crate::token::TokenKind;
use crate::token_tree::BuilderView;
use crate::tokenizing::{classify, flush, is_space, lexed, single_symbol, stripped, tokenized};

verus! {

proof fn lemma_applications_keep_last(s: Seq<(Seq<char>, TokenKind)>)
    requires
        s.len() > 0,
    ensures
        with_applications(s).len() > 0,
        with_applications(s).last() == s.last(),
    decreases s.len(),
{
}

/// Inserting the implicit applications a second time changes nothing: no
/// pair of neighbours in the result calls for another one.
pub proof fn lemma_applications_idempotent(s: Seq<(Seq<char>, TokenKind)>)
    ensures
        with_applications(with_applications(s)) == with_applications(s),
    decreases s.len(),
{
    if s.len() > 1 {
        let rest = s.drop_last();
        let x = s.last();
        let wr = with_applications(rest);
        lemma_applications_idempotent(rest);
        lemma_applications_keep_last(rest);
        assert(rest.last() == s[s.len() - 2]);
        if TokenKind::applicable(s[s.len() - 2].1, x.1) {
            let t = wr.push(application_token()).push(x);
            let u = wr.push(application_token());
            assert(t.drop_last() == u);
            assert(u.drop_last() == wr);
            assert(with_applications(u) == with_applications(wr).push(application_token()));
            assert(with_applications(t) == with_applications(u).push(x));
        } else {
            let t = wr.push(x);
            assert(t.drop_last() == wr);
            assert(with_applications(t) == with_applications(wr).push(x));
        }
    }
}

/// A lone atomic token (a name, an integer or a string literal) parses, in
/// the value grammar, to a single childless node holding that token.
pub proof fn lemma_single_atom_is_leaf(b: BuilderView, t: (Seq<char>, TokenKind))
    requires
        t.1 == TokenKind::Name || t.1 == TokenKind::Int || t.1 == TokenKind::StringLiteral,
    ensures
        parsed(b, seq![t], false) == Ok::<BuilderView, ParseError>(b.opened_first(t)),
        t.1 == TokenKind::Name ==> parsed(b, seq![t], true) == Ok::<BuilderView, ParseError>(b.opened_first(t)),
{
    let s = seq![t];
    assert(s.drop_last() =~= seq![]);
    assert(with_applications(s) == s);
    assert(resolved(s, seq![], seq![]) == resolved(seq![], seq![], seq![t]));
    assert(resolved(s, seq![], seq![]) == Some(seq![t]));
    let b1 = b.opened_first(t);
    assert(seq![0int].push(0int).drop_last() == seq![0int]);
    assert(Seq::<int>::empty().push(0int) == seq![0int]);
    assert(assembled(b1, seq![0int], seq![]) == Ok::<BuilderView, ParseError>(b1));
    assert(assembled(b, seq![], s) == assembled(b1, seq![0int], seq![]));
}

/// A character that can only stand inside a word.
pub open spec fn word_char(c: char) -> bool {
    !is_space(c) && !single_symbol(c) && c != '/' && c != '#' && c != '>'
}

proof fn lemma_word_rest(w: Seq<char>, i: int)
    requires
        0 <= i <= w.len(),
        forall|k: int| 0 <= k < w.len() ==> word_char(#[trigger] w[k]),
    ensures
        lexed(w, i, false, w.take(i)) == Some(flush(w)),
    decreases w.len() - i,
{
    if i < w.len() {
        assert(w.take(i).push(w[i]) =~= w.take(i + 1));
        lemma_word_rest(w, i + 1);
    } else {
        assert(w.take(i) =~= w);
    }
}

/// A text that is one word (no white space, symbol, delimiter or comment
/// mark) gives exactly that word's token; where the word is a name or an
/// integer, the value grammar parses it to a single childless node holding
/// the word as its text.
pub proof fn lemma_lone_word_is_leaf(w: Seq<char>, b: BuilderView)
    requires
        w.len() > 0,
        forall|k: int| 0 <= k < w.len() ==> word_char(#[trigger] w[k]),
    ensures
        tokenized(w) == Ok::<Seq<(Seq<char>, TokenKind)>, ParseError>(seq![classify(w)]),
        classify(w).0 == w,
        classify(w).1 == TokenKind::Name || classify(w).1 == TokenKind::Int ==> parsed(
            b,
            seq![classify(w)],
            false,
        ) == Ok::<BuilderView, ParseError>(b.opened_first(classify(w))),
{
    assert forall|k: int| 0 <= k < w.len() implies w[k] != '#' by {
        assert(word_char(w[k]));
    }
    lemma_no_comment_marks(w, 0);
    assert(w.subrange(0, w.len() as int) =~= w);
    assert(w.take(0) =~= seq![]);
    lemma_word_rest(w, 0);
    if classify(w).1 == TokenKind::Name || classify(w).1 == TokenKind::Int {
        lemma_single_atom_is_leaf(b, classify(w));
    }
}

/// A type expression holding a tuple comma is refused for its grammar,
/// whatever else it holds.
pub proof fn lemma_type_refuses_tuple(b: BuilderView, prog: Seq<(Seq<char>, TokenKind)>, i: int)
    requires
        0 <= i < prog.len(),
        prog[i].1 == TokenKind::Tuple,
    ensures
        parsed(b, prog, true) == Err::<BuilderView, ParseError>(ParseError::GrammarMembership),
{
    assert(!prog[i].1.in_type());
}

/// The number of string-literal delimiters in `s` from position `i` on.
pub open spec fn slashes(s: Seq<char>, i: int) -> nat
    decreases s.len() - i,
{
    if i < 0 || i >= s.len() {
        0
    } else {
        (if s[i] == '/' {
            1nat
        } else {
            0nat
        }) + slashes(s, i + 1)
    }
}

proof fn lemma_no_comment_marks(s: Seq<char>, i: int)
    requires
        0 <= i <= s.len(),
        forall|k: int| 0 <= k < s.len() ==> s[k] != '#',
    ensures
        stripped(s, i, false) == Some(s.subrange(i, s.len() as int)),
    decreases s.len() - i,
{
    if i < s.len() {
        lemma_no_comment_marks(s, i + 1);
        assert(seq![s[i]] + s.subrange(i + 1, s.len() as int) =~= s.subrange(i, s.len() as int));
    } else {
        assert(s.subrange(i, s.len() as int) =~= seq![]);
    }
}

proof fn lemma_lexing_fails_on_parity(u: Seq<char>, i: int, lit: bool, cur: Seq<char>)
    requires
        0 <= i <= u.len(),
    ensures
        lexed(u, i, lit, cur) is None <==> (slashes(u, i) + if lit {
            1nat
        } else {
            0nat
        }) % 2 == 1,
    decreases u.len() - i,
{
    if i < u.len() {
        if lit {
            if u[i] == '/' {
                lemma_lexing_fails_on_parity(u, i + 1, false, seq![]);
            } else {
                lemma_lexing_fails_on_parity(u, i + 1, true, cur.push(u[i]));
            }
        } else if u[i] == '/' {
            lemma_lexing_fails_on_parity(u, i + 1, true, seq![]);
        } else if i + 1 < u.len() && (u[i] == '-' || u[i] == '~') && u[i + 1] == '>' {
            lemma_lexing_fails_on_parity(u, i + 2, false, seq![]);
            assert(slashes(u, i) == slashes(u, i + 1));
            assert(slashes(u, i + 1) == slashes(u, i + 2));
        } else {
            lemma_lexing_fails_on_parity(u, i + 1, false, seq![]);
            lemma_lexing_fails_on_parity(u, i + 1, false, cur.push(u[i]));
        }
    }
}

/// A comment-free text with an odd number of string-literal delimiters is
/// refused as an unterminated string.
pub proof fn lemma_odd_delimiters_refused(s: Seq<char>)
    requires
        forall|k: int| 0 <= k < s.len() ==> s[k] != '#',
        slashes(s, 0) % 2 == 1,
    ensures
        tokenized(s) == Err::<Seq<(Seq<char>, TokenKind)>, ParseError>(ParseError::UnterminatedString),
{
    lemma_no_comment_marks(s, 0);
    assert(s.subrange(0, s.len() as int) =~= s);
    lemma_lexing_fails_on_parity(s, 0, false, seq![]);
}

} // verus!
