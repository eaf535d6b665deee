use vstd::prelude::*;

use crate::error::ParseError;
use crate::text::string_of;
use crate::token::{Token, TokenDir, TokenKind};
use crate::token_tree::{BuilderView, TreeBuilder};

verus! {

/// The views of a sequence of tokens.
pub open spec fn toks(v: Seq<Token>) -> Seq<(Seq<char>, TokenKind)> {
    v.map_values(|t: Token| t@)
}

/// The implicit application token.
pub open spec fn application_token() -> (Seq<char>, TokenKind) {
    (seq!['<', '-'], TokenKind::Application)
}

/// `s` with an application token inserted between each adjacent pair whose
/// kinds call for one.
pub open spec fn with_applications(s: Seq<(Seq<char>, TokenKind)>) -> Seq<(Seq<char>, TokenKind)>
    decreases s.len(),
{
    if s.len() <= 1 {
        s
    } else {
        let rest = with_applications(s.drop_last());
        if TokenKind::applicable(s[s.len() - 2].1, s.last().1) {
            rest.push(application_token()).push(s.last())
        } else {
            rest.push(s.last())
        }
    }
}

/// Inserts the implicit application tokens (see `with_applications`).
pub fn preparse(program: Vec<Token>) -> (r: Vec<Token>)
    ensures
        toks(r@) == with_applications(toks(program@)),
{
    let ghost p = toks(program@);
    let mut result: Vec<Token> = Vec::new();
    let mut i: usize = 0;
    while i < program.len()
        invariant
            p == toks(program@),
            i <= program@.len(),
            toks(result@) == with_applications(p.take(i as int)),
        decreases program@.len() - i,
    {
        let ghost pre = result@;
        if i > 0 && TokenKind::is_applicate(program[i - 1].get_kind(), program[i].get_kind()) {
            result.push(Token::new(string_of(&vec!['<', '-']), TokenKind::Application));
        }
        result.push(program[i].duplicate());
        proof {
            let q = p.take(i as int + 1);
            assert(q.drop_last() =~= p.take(i as int));
            if i > 0 {
                assert(q[q.len() - 2] == p[i as int - 1]);
            }
            assert(toks(result@) =~= with_applications(q));
        }
        i += 1;
    }
    assert(p.take(program@.len() as int) =~= p);
    result
}

/// The pending tokens moved to `out`, the top first.
pub open spec fn drained_stack(
    out: Seq<(Seq<char>, TokenKind)>,
    stack: Seq<(Seq<char>, TokenKind)>,
) -> Seq<(Seq<char>, TokenKind)>
    decreases stack.len(),
{
    if stack.len() == 0 {
        out
    } else {
        drained_stack(out.push(stack.last()), stack.drop_last())
    }
}

/// Precedence resolution of `prog`, whose next token is its last element,
/// with pending operators `stack` and output so far `out`; `None` where two
/// tokens cannot be compared. A closer that does not pair off with the
/// pending top is compared by priority like any other token: bracket nesting
/// is not checked here, and a stray bracket surfaces later, in assembly.
pub open spec fn resolved(
    prog: Seq<(Seq<char>, TokenKind)>,
    stack: Seq<(Seq<char>, TokenKind)>,
    out: Seq<(Seq<char>, TokenKind)>,
) -> Option<Seq<(Seq<char>, TokenKind)>>
    decreases prog.len(), stack.len(),
{
    if prog.len() == 0 {
        Some(drained_stack(out, stack))
    } else {
        let first = prog.last();
        let rest = prog.drop_last();
        if stack.len() == 0 {
            if first.1.prior() > 0 {
                resolved(rest, stack.push(first), out)
            } else if first.1.prior() == 0 {
                resolved(rest, stack, out.push(first))
            } else {
                None
            }
        } else {
            let top = stack.last();
            match top.1.relation(first.1) {
                None => None,
                Some(TokenDir::Pair) => resolved(rest, stack.drop_last(), out),
                Some(TokenDir::Down) => resolved(prog, stack.drop_last(), out.push(top)),
                Some(TokenDir::Forward) => resolved(rest, stack, out.push(first)),
                Some(TokenDir::Stay) => resolved(rest, stack.push(first), out),
            }
        }
    }
}

proof fn lemma_toks_push(v: Seq<Token>, t: Token)
    ensures
        toks(v.push(t)) == toks(v).push(t@),
{
    assert(toks(v.push(t)) =~= toks(v).push(t@));
}

proof fn lemma_toks_drop_last(v: Seq<Token>)
    requires
        v.len() > 0,
    ensures
        toks(v.drop_last()) == toks(v).drop_last(),
        toks(v).last() == v.last()@,
{
    assert(toks(v.drop_last()) =~= toks(v).drop_last());
}

/// Linearises `program` (next token last) so that reading the result from
/// its end gives each operator before its operands.
fn reverse_polish_notation(input: Vec<Token>) -> (r: Result<Vec<Token>, ParseError>)
    ensures
        match resolved(toks(input@), seq![], seq![]) {
            Some(lin) => r is Ok && toks(r->Ok_0@) == lin,
            None => r == Err::<Vec<Token>, ParseError>(ParseError::Precedence),
        },
{
    let ghost orig = input@;
    let ghost whole = resolved(toks(input@), seq![], seq![]);
    let mut program = input;
    let mut result: Vec<Token> = Vec::new();
    let mut stack: Vec<Token> = Vec::new();
    assert(toks(stack@) =~= seq![]);
    assert(toks(result@) =~= seq![]);
    while program.len() > 0
        invariant
            whole == resolved(toks(input@), seq![], seq![]),
            whole == resolved(toks(program@), toks(stack@), toks(result@)),
        decreases program@.len(), stack@.len(),
    {
        let ghost prog0 = program@;
        proof {
            lemma_toks_drop_last(program@);
        }
        let first = program.pop().unwrap();
        assert(toks(prog0).last() == first@);
        assert(toks(prog0).drop_last() == toks(program@));
        if stack.len() == 0 {
            let n = first.get_kind().get_prior();
            if n > 0 {
                proof { lemma_toks_push(stack@, first); }
                stack.push(first);
            } else if n == 0 {
                proof { lemma_toks_push(result@, first); }
                result.push(first);
            } else {
                return Err(ParseError::Precedence);
            }
        } else {
            let ghost stack0 = stack@;
            proof {
                lemma_toks_drop_last(stack@);
            }
            let top = stack.pop().unwrap();
            match top.get_kind().compare(first.get_kind()) {
                Err(e) => {
                    return Err(e);
                },
                Ok(TokenDir::Pair) => {},
                Ok(TokenDir::Down) => {
                    proof {
                        lemma_toks_push(result@, top);
                        lemma_toks_push(program@, first);
                        assert(program@.push(first) =~= prog0);
                    }
                    result.push(top);
                    program.push(first);
                },
                Ok(TokenDir::Forward) => {
                    proof {
                        lemma_toks_push(stack@, top);
                        lemma_toks_push(result@, first);
                    }
                    stack.push(top);
                    assert(stack@ =~= stack0);
                    result.push(first);
                },
                Ok(TokenDir::Stay) => {
                    proof {
                        lemma_toks_push(stack@, top);
                        lemma_toks_push(stack@.push(top), first);
                    }
                    stack.push(top);
                    assert(stack@ =~= stack0);
                    stack.push(first);
                },
            }
        }
    }
    while stack.len() > 0
        invariant
            whole == resolved(toks(input@), seq![], seq![]),
            program@.len() == 0,
            whole == Some(drained_stack(toks(result@), toks(stack@))),
        decreases stack@.len(),
    {
        proof {
            lemma_toks_drop_last(stack@);
        }
        let token = stack.pop().unwrap();
        proof { lemma_toks_push(result@, token); }
        result.push(token);
    }
    Ok(result)
}


/// The pending child counts after every finished node above the outermost
/// one is closed, with the builder closed in step.
pub open spec fn drained(b: BuilderView, counts: Seq<int>) -> (BuilderView, Seq<int>)
    decreases counts.len(),
{
    if counts.len() > 1 && counts.last() == 0 {
        drained(b.closed(), counts.drop_last())
    } else {
        (b, counts)
    }
}

/// Tree assembly of the linear sequence `lin`, read from its end, into the
/// builder state `b`, with `counts` the children still owed to each node
/// opened so far.
pub open spec fn assembled(
    b: BuilderView,
    counts: Seq<int>,
    lin: Seq<(Seq<char>, TokenKind)>,
) -> Result<BuilderView, ParseError>
    decreases lin.len(),
{
    let (b2, c2) = drained(b, counts);
    if lin.len() == 0 {
        if c2 == seq![0int] {
            Ok(b2)
        } else {
            Err(ParseError::Arity)
        }
    } else {
        let t = lin.last();
        if c2.len() > 0 && c2.last() == 0 {
            Err(ParseError::Arity)
        } else if t.1.arity() < 0 {
            Err(ParseError::UnexpectedToken)
        } else {
            let c3 = if c2.len() > 0 {
                c2.update(c2.len() - 1, c2.last() - 1)
            } else {
                c2
            };
            assembled(b2.opened_first(t), c3.push(t.1.arity()), lin.drop_last())
        }
    }
}

/// The pending child counts of the assembler as integers.
pub open spec fn counts_of(v: Seq<i32>) -> Seq<int> {
    v.map_values(|x: i32| x as int)
}

/// Builds the tree of the linear sequence `program` (root last) into
/// `builder`, below its current context.
fn parse_RPN(builder: &mut TreeBuilder, linear: Vec<Token>) -> (r: Result<(), ParseError>)
    requires
        old(builder)@.wf(),
    ensures
        final(builder)@.wf(),
        match assembled(old(builder)@, seq![], toks(linear@)) {
            Ok(b) => r is Ok && final(builder)@ == b,
            Err(e) => r == Err::<(), ParseError>(e),
        },
{
    let ghost whole = assembled(builder@, seq![], toks(linear@));
    let mut program = linear;
    let mut stack: Vec<i32> = Vec::new();
    assert(counts_of(stack@) =~= seq![]);
    loop
        invariant
            builder@.wf(),
            whole == assembled(old(builder)@, seq![], toks(linear@)),
            whole == assembled(builder@, counts_of(stack@), toks(program@)),
            forall|j: int| 0 <= j < stack@.len() ==> 0 <= #[trigger] stack@[j] <= 2,
        decreases program@.len(),
    {
        let ghost b0 = builder@;
        let ghost s0 = counts_of(stack@);
        while stack.len() > 1 && stack[stack.len() - 1] == 0
            invariant
                builder@.wf(),
                drained(builder@, counts_of(stack@)) == drained(b0, s0),
                forall|j: int| 0 <= j < stack@.len() ==> 0 <= #[trigger] stack@[j] <= 2,
                decreases stack@.len(),
        {
            let ghost sb = stack@;
            stack.pop();
            builder.pop();
            assert(counts_of(stack@) =~= counts_of(sb).drop_last());
        }
        assert(drained(builder@, counts_of(stack@)) == (builder@, counts_of(stack@)));
        if program.len() == 0 {
            if stack.len() == 1 && stack[0] == 0 {
                assert(counts_of(stack@) =~= seq![0int]);
                return Ok(());
            } else {
                assert(counts_of(stack@) != seq![0int]) by {
                    if stack@.len() == 1 {
                        assert(counts_of(stack@)[0] != 0);
                    }
                }
                return Err(ParseError::Arity);
            }
        }
        let ghost p0 = program@;
        proof {
            lemma_toks_drop_last(program@);
        }
        let last = program.pop().unwrap();
        if stack.len() > 0 && stack[stack.len() - 1] == 0 {
            return Err(ParseError::Arity);
        }
        let n = last.get_kind().nary_operation();
        if n < 0 {
            return Err(ParseError::UnexpectedToken);
        }
        let ghost sc = counts_of(stack@);
        if stack.len() > 0 {
            let k = stack.len() - 1;
            let c = stack[k];
            stack.set(k, c - 1);
        }
        let ghost c3 = if sc.len() > 0 {
            sc.update(sc.len() - 1, sc.last() - 1)
        } else {
            sc
        };
        assert(counts_of(stack@) =~= c3);
        stack.push(n);
        assert(counts_of(stack@) =~= c3.push(n as int));
        builder.push_first(last);
    }
}

/// Whether every token of `s` belongs to the type grammar (`in_type`) or to
/// the value grammar.
pub open spec fn all_admitted(s: Seq<(Seq<char>, TokenKind)>, in_type: bool) -> bool {
    forall|i: int|
        0 <= i < s.len() ==> (if in_type {
            (#[trigger] s[i]).1.in_type()
        } else {
            s[i].1.in_value()
        })
}

/// The outcome of parsing `prog` (its first token last) in the type grammar
/// (`in_type`) or the value grammar into the builder state `b`.
pub open spec fn parsed(
    b: BuilderView,
    prog: Seq<(Seq<char>, TokenKind)>,
    in_type: bool,
) -> Result<BuilderView, ParseError> {
    if !all_admitted(prog, in_type) {
        Err(ParseError::GrammarMembership)
    } else {
        match resolved(with_applications(prog), seq![], seq![]) {
            None => Err(ParseError::Precedence),
            Some(lin) => assembled(b, seq![], lin),
        }
    }
}

fn type_token_check(program: &Vec<Token>) -> (r: Result<(), ParseError>)
    ensures
        r is Ok <==> all_admitted(toks(program@), true),
        r is Err ==> r == Err::<(), ParseError>(ParseError::GrammarMembership),
{
    let mut i: usize = 0;
    while i < program.len()
        invariant
            i <= program@.len(),
            forall|j: int| 0 <= j < i ==> (#[trigger] toks(program@)[j]).1.in_type(),
        decreases program@.len() - i,
    {
        if !program[i].get_kind().allow_in_type() {
            assert(!toks(program@)[i as int].1.in_type());
            return Err(ParseError::GrammarMembership);
        }
        i += 1;
    }
    Ok(())
}

fn value_token_check(program: &Vec<Token>) -> (r: Result<(), ParseError>)
    ensures
        r is Ok <==> all_admitted(toks(program@), false),
        r is Err ==> r == Err::<(), ParseError>(ParseError::GrammarMembership),
{
    let mut i: usize = 0;
    while i < program.len()
        invariant
            i <= program@.len(),
            forall|j: int| 0 <= j < i ==> (#[trigger] toks(program@)[j]).1.in_value(),
        decreases program@.len() - i,
    {
        if !program[i].get_kind().allow_in_value() {
            assert(!toks(program@)[i as int].1.in_value());
            return Err(ParseError::GrammarMembership);
        }
        i += 1;
    }
    Ok(())
}

/// Parses a type expression, given as tokens with the first one last, into
/// `builder`, below its current context. Tokens outside the type grammar are
/// refused before anything else is done; a failure found while the tree is
/// assembled leaves the nodes assembled up to that point in the builder.
pub fn parse_type(builder: &mut TreeBuilder, program: Vec<Token>) -> (r: Result<(), ParseError>)
    requires
        old(builder)@.wf(),
    ensures
        final(builder)@.wf(),
        match parsed(old(builder)@, toks(program@), true) {
            Ok(b) => r is Ok && final(builder)@ == b,
            Err(e) => r == Err::<(), ParseError>(e),
        },
        !all_admitted(toks(program@), true) ==> final(builder)@ == old(builder)@,
        resolved(with_applications(toks(program@)), seq![], seq![]) is None ==> final(builder)@
            == old(builder)@,
{
    type_token_check(&program)?;
    let program = preparse(program);
    let program = reverse_polish_notation(program)?;
    parse_RPN(builder, program)
}

/// Parses a value expression, given as tokens with the first one last, into
/// `builder`, below its current context. Tokens outside the value grammar are
/// refused before anything else is done; a failure found while the tree is
/// assembled leaves the nodes assembled up to that point in the builder.
pub fn parse_value(builder: &mut TreeBuilder, program: Vec<Token>) -> (r: Result<(), ParseError>)
    requires
        old(builder)@.wf(),
    ensures
        final(builder)@.wf(),
        match parsed(old(builder)@, toks(program@), false) {
            Ok(b) => r is Ok && final(builder)@ == b,
            Err(e) => r == Err::<(), ParseError>(e),
        },
        !all_admitted(toks(program@), false) ==> final(builder)@ == old(builder)@,
        resolved(with_applications(toks(program@)), seq![], seq![]) is None ==> final(builder)@
            == old(builder)@,
{
    value_token_check(&program)?;
    let program = preparse(program);
    let program = reverse_polish_notation(program)?;
    parse_RPN(builder, program)
}

} // verus!
