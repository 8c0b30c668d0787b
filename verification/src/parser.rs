use vstd::prelude::*;
use crate::lexer::{lexemes, Lexeme, TokenKind};
pub use crate::object::Object;
use crate::object::{lemma_list_view, terms, Term};

verus! {

/// Why a token sequence could not be read as a form.
#[allow(dead_code)]
#[derive(Debug)]
pub struct ParseError(String);

/// A token sequence without its next token, which is its last element.
pub open spec fn after_next(tokens: Seq<Lexeme>) -> Seq<Lexeme> {
    if tokens.len() == 0 {
        tokens
    } else {
        tokens.drop_last()
    }
}

/// The elements of a list read from the end of `tokens` and added to
/// `built`, with the tokens that are left. Reading stops in front of a
/// closing parenthesis or where the tokens end. An opening parenthesis
/// starts an inner list, whose closing parenthesis is consumed with it.
pub open spec fn parsed_list(tokens: Seq<Lexeme>, built: Seq<Term>) -> (Seq<Lexeme>, Term)
    decreases tokens.len(),
{
    if tokens.len() == 0 {
        (tokens, Term::List(built))
    } else {
        match tokens.last() {
            Lexeme::Number(bits) => parsed_list(tokens.drop_last(), built.push(Term::Number(bits))),
            Lexeme::Symbol(s) => parsed_list(tokens.drop_last(), built.push(Term::Symbol(s))),
            Lexeme::RParen => (tokens, Term::List(built)),
            Lexeme::LParen => {
                let (rest, inner) = parsed_list(tokens.drop_last(), Seq::empty());
                if rest.len() < tokens.len() {
                    parsed_list(after_next(rest), built.push(inner))
                } else {
                    (rest, Term::List(built))
                }
            },
        }
    }
}

/// The form read from the end of `tokens`, with the tokens that are left:
/// the next token opens the form, whatever it is, and the list follows.
pub open spec fn parsed(tokens: Seq<Lexeme>) -> (Seq<Lexeme>, Term) {
    parsed_list(tokens.drop_last(), Seq::empty())
}

/// Reading a list never leaves more tokens than it was given.
pub proof fn law_parsing_consumes(tokens: Seq<Lexeme>, built: Seq<Term>)
    ensures
        parsed_list(tokens, built).0.len() <= tokens.len(),
    decreases tokens.len(),
{
    if tokens.len() > 0 {
        match tokens.last() {
            Lexeme::Number(bits) => {
                law_parsing_consumes(tokens.drop_last(), built.push(Term::Number(bits)));
            },
            Lexeme::Symbol(s) => {
                law_parsing_consumes(tokens.drop_last(), built.push(Term::Symbol(s)));
            },
            Lexeme::RParen => {},
            Lexeme::LParen => {
                law_parsing_consumes(tokens.drop_last(), Seq::empty());
                let (rest, inner) = parsed_list(tokens.drop_last(), Seq::empty());
                law_parsing_consumes(after_next(rest), built.push(inner));
            },
        }
    }
}

/// Reads one form from a token sequence that is held in reverse, so that
/// the next token is the last element. The tokens that were read are
/// removed; a closing parenthesis that ends the form stays.
pub fn parse(tokens: &mut Vec<TokenKind>) -> (r: Result<Object, ParseError>)
    requires
        old(tokens)@.len() > 0,
    ensures
        r is Ok,
        (lexemes(final(tokens)@), r->Ok_0@) == parsed(lexemes(old(tokens)@)),
        final(tokens)@.len() < old(tokens)@.len(),
    decreases old(tokens)@.len(),
{
    let _ = tokens.pop();
    proof {
        assert(lexemes(tokens@) =~= lexemes(old(tokens)@).drop_last());
    }
    let mut built: Vec<Object> = Vec::new();
    proof {
        assert(terms(built@) =~= Seq::<Term>::empty());
    }
    while tokens.len() > 0
        invariant
            tokens@.len() < old(tokens)@.len(),
            parsed(lexemes(old(tokens)@)) == parsed_list(lexemes(tokens@), terms(built@)),
        decreases tokens@.len(),
    {
        let ghost before = tokens@;
        let ghost had = built@;
        let last: usize = tokens.len() - 1;
        proof {
            assert(lexemes(before).last() == before[last as int]@);
        }
        let leaf: Option<Object> = match &tokens[last] {
            TokenKind::Float(bits) => Some(Object::Float(*bits)),
            TokenKind::Symbol(s) => Some(Object::Symbol(s.clone())),
            TokenKind::LParen => None,
            TokenKind::RParen => {
                proof {
                    lemma_list_view(built);
                }
                return Ok(Object::List(built));
            },
        };
        let item: Object = match leaf {
            Some(o) => o,
            None => {
                match parse(tokens) {
                    Ok(o) => o,
                    Err(e) => {
                        return Err(e);
                    },
                }
            },
        };
        let ghost rest = tokens@;
        built.push(item);
        let _ = tokens.pop();
        proof {
            assert(terms(built@) =~= terms(had).push(item@));
            if leaf is Some {
                assert(lexemes(tokens@) =~= lexemes(before).drop_last());
            } else {
                assert(lexemes(tokens@) =~= after_next(lexemes(rest)));
            }
        }
    }
    proof {
        lemma_list_view(built);
    }
    Ok(Object::List(built))
}

} // verus!
