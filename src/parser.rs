use std::collections::VecDeque;
use vstd::prelude::*;
use crate::lexer::{token_views, tokenize, Token, TokenType, TokenView, Tokens};

verus! {

/// Why a token sequence is not an artist list.
#[derive(Clone, Copy, Debug, PartialEq, Eq, Structural)]
pub enum ParseError {
    /// The tokens ran out where an artist name was required.
    InsufficientTokens,
    /// A bracket or comma stood where an artist name was required.
    ExpectedArtistName,
    /// A nested group was not closed by a right bracket.
    ExpectedRightBracket,
}

/// An artist as the contracts see it: its name and, if a bracketed group
/// followed the name, the artists of that group.
pub struct ArtistView {
    pub name: Seq<char>,
    pub references: Option<Seq<ArtistView>>,
}

pub open spec fn leaf(name: Seq<char>) -> ArtistView {
    ArtistView { name, references: None }
}

/// Puts `first` in front of the artists of a continuation parse.
pub open spec fn prepend(
    first: ArtistView,
    rest: Result<(Seq<ArtistView>, Seq<TokenView>), ParseError>,
) -> Result<(Seq<ArtistView>, Seq<TokenView>), ParseError> {
    match rest {
        Ok((artists, left)) => Ok((seq![first] + artists, left)),
        Err(e) => Err(e),
    }
}

/// Recursive descent over
/// `ArtistList := ArtistName ( '（' ArtistList '）' )? ( '、' ArtistList )?`:
/// the artists read from the front of `t`, and the tokens left unread.
/// (A nested parse always leaves fewer tokens than it was given, so the first
/// branch after it is never taken; it only makes the recursion evidently finite.)
pub open spec fn parse_tokens(t: Seq<TokenView>) -> Result<
    (Seq<ArtistView>, Seq<TokenView>),
    ParseError,
>
    decreases t.len(),
{
    if t.len() == 0 {
        Err(ParseError::InsufficientTokens)
    } else if t[0].0 != TokenType::ArtistName {
        Err(ParseError::ExpectedArtistName)
    } else if t.len() == 1 {
        Ok((seq![leaf(t[0].1)], t.skip(1)))
    } else if t[1].0 == TokenType::LBracket {
        match parse_tokens(t.skip(2)) {
            Err(e) => Err(e),
            Ok((children, rest)) => {
                let node = ArtistView { name: t[0].1, references: Some(children) };
                if rest.len() >= t.len() {
                    Err(ParseError::ExpectedRightBracket)
                } else if rest.len() == 0 || rest[0].0 != TokenType::RBracket {
                    Err(ParseError::ExpectedRightBracket)
                } else if rest.len() > 1 && rest[1].0 == TokenType::Comma {
                    prepend(node, parse_tokens(rest.skip(2)))
                } else {
                    Ok((seq![node], rest.skip(1)))
                }
            },
        }
    } else if t[1].0 == TokenType::Comma {
        prepend(leaf(t[0].1), parse_tokens(t.skip(2)))
    } else {
        Ok((seq![leaf(t[0].1)], t.skip(1)))
    }
}

/// What parsing the text `s` gives.
pub open spec fn parse_text(s: Seq<char>) -> Result<Seq<ArtistView>, ParseError> {
    match parse_tokens(tokenize(s)) {
        Ok((artists, _)) => Ok(artists),
        Err(e) => Err(e),
    }
}

/// A successful parse consumes at least one token and leaves a suffix of its input.
pub proof fn lemma_parse_consumes(t: Seq<TokenView>)
    ensures
        parse_tokens(t) matches Ok((_, rest)) ==> rest.len() < t.len() && rest == t.skip(
            t.len() - rest.len(),
        ),
    decreases t.len(),
{
    if t.len() >= 2 && t[0].0 == TokenType::ArtistName {
        if t[1].0 == TokenType::LBracket {
            lemma_parse_consumes(t.skip(2));
            if let Ok((_, rest)) = parse_tokens(t.skip(2)) {
                assert(rest =~= t.skip(t.len() - rest.len()));
                if rest.len() > 1 && rest[0].0 == TokenType::RBracket && rest[1].0
                    == TokenType::Comma {
                    lemma_parse_consumes(rest.skip(2));
                    if let Ok((_, left)) = parse_tokens(rest.skip(2)) {
                        assert(left =~= t.skip(t.len() - left.len()));
                    }
                } else if rest.len() > 0 {
                    assert(rest.skip(1) =~= t.skip(t.len() - rest.skip(1).len()));
                }
            }
        } else if t[1].0 == TokenType::Comma {
            lemma_parse_consumes(t.skip(2));
            if let Ok((_, left)) = parse_tokens(t.skip(2)) {
                assert(left =~= t.skip(t.len() - left.len()));
            }
        }
    }
}

/// Artists at one nesting level, in the order they were written.
pub struct ArtistList {
    pub artists: Vec<Artist>,
}

/// An artist's name and, if a bracketed group followed it, the artists in it.
pub struct Artist {
    pub name: String,
    pub references: Option<ArtistList>,
}

impl Artist {
    pub open spec fn view(&self) -> ArtistView
        decreases self,
    {
        ArtistView {
            name: self.name@,
            references: match self.references {
                Some(l) => Some(l.view()),
                None => None,
            },
        }
    }

    pub fn name(&self) -> (r: &str)
        ensures
            r@ == self.name@,
    {
        self.name.as_str()
    }

    pub fn references(&self) -> (r: Option<&ArtistList>)
        ensures
            r == match self.references {
                Some(ref l) => Some(l),
                None => None::<&ArtistList>,
            },
    {
        self.references.as_ref()
    }
}

impl ArtistList {
    pub open spec fn view(&self) -> Seq<ArtistView>
        decreases self,
    {
        Seq::new(
            self.artists.len() as nat,
            |i: int|
                if 0 <= i < self.artists.len() {
                    self.artists[i].view()
                } else {
                    leaf(Seq::empty())
                },
        )
    }

    pub fn len(&self) -> (r: usize)
        ensures
            r == self.view().len(),
    {
        self.artists.len()
    }
}

/// Taking tokens off the front of a queue takes their views off the front of its view.
proof fn lemma_views_skip(v: Seq<Token>, n: int)
    requires
        0 <= n <= v.len(),
    ensures
        token_views(v.subrange(n, v.len() as int)) == token_views(v).skip(n),
{
    assert(token_views(v.subrange(n, v.len() as int)) =~= token_views(v).skip(n));
}

/// Putting a token back in front of a queue puts its view back in front of its view.
proof fn lemma_views_unshift(t: Token, v: Seq<Token>)
    ensures
        token_views(seq![t] + v) == seq![t@] + token_views(v),
{
    assert(token_views(seq![t] + v) =~= seq![t@] + token_views(v));
}

/// The view of a list is the views of its artists, in order.
proof fn lemma_list_view(l: ArtistList)
    ensures
        l.view().len() == l.artists.len(),
        forall|i: int| 0 <= i < l.artists.len() ==> #[trigger] l.view()[i] == l.artists[i].view(),
{
}

impl ArtistList {
    /// Reads one artist list off the front of `tokens`, leaving in it what
    /// follows the list.
    fn parse_inner(tokens: &mut VecDeque<Token>) -> (r: Result<ArtistList, ParseError>)
        ensures
            match parse_tokens(token_views(old(tokens)@)) {
                Ok((artists, rest)) => r matches Ok(l) && l.view() == artists
                    && token_views(final(tokens)@) == rest,
                Err(e) => r == Err::<ArtistList, ParseError>(e),
            },
        decreases old(tokens)@.len(),
    {
        let ghost t = token_views(tokens@);
        let artist_name = match tokens.pop_front() {
            Some(token) => token,
            None => {
                return Err(ParseError::InsufficientTokens);
            },
        };
        proof {
            lemma_views_skip(old(tokens)@, 1);
        }
        if !artist_name.is_artist_name() {
            return Err(ParseError::ExpectedArtistName);
        }
        let name = artist_name.into_inner();
        let mut artists: Vec<Artist> = Vec::new();
        match tokens.pop_front() {
            None => {
                artists.push(Artist { name, references: None });
            },
            Some(next) => {
                proof {
                    lemma_views_skip(old(tokens)@, 2);
                    assert(tokens@ =~= old(tokens)@.subrange(2, old(tokens)@.len() as int));
                }
                if next.is_left_bracket() {
                    let children = match ArtistList::parse_inner(tokens) {
                        Ok(l) => l,
                        Err(e) => {
                            return Err(e);
                        },
                    };
                    proof {
                        lemma_parse_consumes(t.skip(2));
                    }
                    let ghost rest = token_views(tokens@);
                    let ghost before_close = tokens@;
                    match tokens.pop_front() {
                        Some(close) => {
                            if !close.is_right_bracket() {
                                return Err(ParseError::ExpectedRightBracket);
                            }
                        },
                        None => {
                            return Err(ParseError::ExpectedRightBracket);
                        },
                    }
                    proof {
                        lemma_views_skip(before_close, 1);
                    }
                    artists.push(Artist { name, references: Some(children) });
                    let ghost after_close = tokens@;
                    match tokens.pop_front() {
                        None => {},
                        Some(after) => {
                            proof {
                                lemma_views_skip(after_close, 1);
                                assert(rest.skip(1).skip(1) =~= rest.skip(2));
                            }
                            if after.is_comma() {
                                let mut more = match ArtistList::parse_inner(tokens) {
                                    Ok(l) => l,
                                    Err(e) => {
                                        return Err(e);
                                    },
                                };
                                artists.append(&mut more.artists);
                                proof {
                                    lemma_list_view(more);
                                }
                            } else {
                                proof {
                                    lemma_views_unshift(after, tokens@);
                                    assert(after_close =~= seq![after] + tokens@);
                                }
                                tokens.push_front(after);
                            }
                        },
                    }
                } else if next.is_comma() {
                    artists.push(Artist { name, references: None });
                    let mut more = match ArtistList::parse_inner(tokens) {
                        Ok(l) => l,
                        Err(e) => {
                            return Err(e);
                        },
                    };
                    artists.append(&mut more.artists);
                    proof {
                        lemma_list_view(more);
                    }
                } else {
                    proof {
                        lemma_views_unshift(next, tokens@);
                        assert(old(tokens)@.subrange(1, old(tokens)@.len() as int) =~= seq![next]
                            + tokens@);
                    }
                    artists.push(Artist { name, references: None });
                    tokens.push_front(next);
                }
            },
        }
        let result = ArtistList { artists };
        proof {
            lemma_list_view(result);
            match parse_tokens(t) {
                Ok((expected, _)) => {
                    assert(result.view() =~= expected);
                },
                Err(_) => {},
            }
        }
        Ok(result)
    }
}

impl ArtistList {
    /// Parses artist credits such as `Group（Member（Name））、Other`.
    /// Tokens left after the first complete list are not read.
    pub fn parse(input: &str) -> (r: Result<ArtistList, ParseError>)
        ensures
            match parse_text(input@) {
                Ok(artists) => r matches Ok(l) && l.view() == artists,
                Err(e) => r == Err::<ArtistList, ParseError>(e),
            },
    {
        let mut tokens = Tokens::parse(input).into_inner();
        ArtistList::parse_inner(&mut tokens)
    }
}

} // verus!
