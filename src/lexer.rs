use std::collections::VecDeque;
use vstd::prelude::*;

verus! {

/// Character that makes the next character literal.
pub const ESCAPE: char = '\\';

/// Opens a nested group.
pub const LEFT_BRACKET: char = '（';

/// Closes a nested group.
pub const RIGHT_BRACKET: char = '）';

/// Separates siblings; doubled, it stands for one literal comma.
pub const COMMA: char = '、';

/// What a token stands for.
#[derive(Clone, Copy, Debug, PartialEq, Eq, Structural)]
pub enum TokenType {
    ArtistName,
    LBracket,
    RBracket,
    Comma,
}

/// A token as the contracts see it: its kind and its text.
pub type TokenView = (TokenType, Seq<char>);

pub open spec fn is_delimiter(c: char) -> bool {
    c == LEFT_BRACKET || c == RIGHT_BRACKET || c == COMMA
}

pub open spec fn is_special(c: char) -> bool {
    c == ESCAPE || is_delimiter(c)
}

pub open spec fn delimiter_type(c: char) -> TokenType {
    if c == LEFT_BRACKET {
        TokenType::LBracket
    } else if c == RIGHT_BRACKET {
        TokenType::RBracket
    } else {
        TokenType::Comma
    }
}

/// Whether the character at `i` turns the next one into literal name text:
/// a backslash, or a comma directly followed by another comma.
pub open spec fn starts_escape(s: Seq<char>, i: int) -> bool {
    s[i] == ESCAPE || (s[i] == COMMA && i + 1 < s.len() && s[i + 1] == COMMA)
}

/// Appends the pending name to `out`, unless it is empty.
pub open spec fn flush(out: Seq<TokenView>, name: Seq<char>) -> Seq<TokenView> {
    if name.len() > 0 {
        out.push((TokenType::ArtistName, name))
    } else {
        out
    }
}

/// The tokenizer's state machine from position `i` on: `escaped` is the state
/// (the previous character was an escape marker), `name` the name text read so
/// far and `out` the tokens emitted so far.
pub open spec fn lex_from(
    s: Seq<char>,
    i: nat,
    escaped: bool,
    name: Seq<char>,
    out: Seq<TokenView>,
) -> Seq<TokenView>
    decreases s.len() - i,
{
    if i >= s.len() {
        flush(out, name)
    } else if escaped {
        lex_from(s, i + 1, false, name.push(s[i as int]), out)
    } else if starts_escape(s, i as int) {
        lex_from(s, i + 1, true, name, out)
    } else if is_delimiter(s[i as int]) {
        lex_from(
            s,
            i + 1,
            false,
            Seq::empty(),
            flush(out, name).push((delimiter_type(s[i as int]), seq![s[i as int]])),
        )
    } else {
        lex_from(s, i + 1, false, name.push(s[i as int]), out)
    }
}

/// The tokens of the text `s`.
pub open spec fn tokenize(s: Seq<char>) -> Seq<TokenView> {
    lex_from(s, 0, false, Seq::empty(), Seq::empty())
}

/// One token and its text: a name after escapes are resolved, or the one
/// delimiter character.
pub struct Token {
    pub token_type: TokenType,
    pub image: String,
}

impl View for Token {
    type V = TokenView;

    open spec fn view(&self) -> TokenView {
        (self.token_type, self.image@)
    }
}

pub open spec fn token_views(v: Seq<Token>) -> Seq<TokenView> {
    v.map_values(|t: Token| t@)
}

impl Token {
    pub fn is_artist_name(&self) -> (r: bool)
        ensures
            r == (self.token_type == TokenType::ArtistName),
    {
        match self.token_type {
            TokenType::ArtistName => true,
            _ => false,
        }
    }

    pub fn is_left_bracket(&self) -> (r: bool)
        ensures
            r == (self.token_type == TokenType::LBracket),
    {
        match self.token_type {
            TokenType::LBracket => true,
            _ => false,
        }
    }

    pub fn is_right_bracket(&self) -> (r: bool)
        ensures
            r == (self.token_type == TokenType::RBracket),
    {
        match self.token_type {
            TokenType::RBracket => true,
            _ => false,
        }
    }

    pub fn is_comma(&self) -> (r: bool)
        ensures
            r == (self.token_type == TokenType::Comma),
    {
        match self.token_type {
            TokenType::Comma => true,
            _ => false,
        }
    }

    pub fn into_inner(self) -> (r: String)
        ensures
            r@ == self.image@,
    {
        self.image
    }
}

/// Relies on String::push: appends one character to the string.
#[verifier::external_body]
fn push_char(s: &mut String, c: char)
    ensures
        final(s)@ == old(s)@.push(c),
{
    s.push(c);
}

/// The characters of `input`, in order.
fn chars_of(input: &str) -> (r: Vec<char>)
    ensures
        r@ == input@,
{
    let mut r: Vec<char> = Vec::new();
    for c in it: input.chars()
        invariant
            r@ == it.seq().take(it.index() as int),
    {
        r.push(c);
    }
    r
}

/// The tokens of a text, in order, as a queue that the parser drains from the front.
pub struct Tokens {
    pub inner: VecDeque<Token>,
}

impl View for Tokens {
    type V = Seq<TokenView>;

    open spec fn view(&self) -> Seq<TokenView> {
        token_views(self.inner@)
    }
}

/// Appending a token to a queue appends its view to the queue's view.
proof fn lemma_views_push(v: Seq<Token>, t: Token)
    ensures
        token_views(v.push(t)) == token_views(v).push(t@),
{
    assert(token_views(v.push(t)) =~= token_views(v).push(t@));
}

/// Emits the pending name as a token if it is not empty, and starts a new one.
fn flush_name(out: &mut VecDeque<Token>, name: String) 
    ensures
        token_views(final(out)@) == flush(token_views(old(out)@), name@),
{
    if !name.as_str().is_empty() {
        proof {
            lemma_views_push(out@, Token { token_type: TokenType::ArtistName, image: name });
        }
        out.push_back(Token { token_type: TokenType::ArtistName, image: name });
    }
}

impl Tokens {
    /// Splits `input` into name, bracket and comma tokens, resolving escapes.
    pub fn parse(input: &str) -> (r: Tokens)
        ensures
            r@ == tokenize(input@),
    {
        let chars = chars_of(input);
        let mut out: VecDeque<Token> = VecDeque::new();
        let mut escaped = false;
        let mut name = String::new();
        let mut i: usize = 0;
        proof {
            assert(token_views(out@) =~= Seq::<TokenView>::empty());
        }
        while i < chars.len()
            invariant
                chars@ == input@,
                i <= chars.len(),
                tokenize(input@) == lex_from(input@, i as nat, escaped, name@, token_views(out@)),
            decreases chars.len() - i,
        {
            let ch = chars[i];
            if escaped {
                push_char(&mut name, ch);
                escaped = false;
            } else if ch == ESCAPE || (ch == COMMA && i + 1 < chars.len() && chars[i + 1] == COMMA) {
                escaped = true;
            } else if ch == LEFT_BRACKET || ch == RIGHT_BRACKET || ch == COMMA {
                flush_name(&mut out, name);
                name = String::new();
                let token_type = if ch == LEFT_BRACKET {
                    TokenType::LBracket
                } else if ch == RIGHT_BRACKET {
                    TokenType::RBracket
                } else {
                    TokenType::Comma
                };
                let mut image = String::new();
                push_char(&mut image, ch);
                proof {
                    assert(image@ =~= seq![ch]);
                    lemma_views_push(out@, Token { token_type, image });
                }
                out.push_back(Token { token_type, image });
            } else {
                push_char(&mut name, ch);
            }
            i = i + 1;
        }
        flush_name(&mut out, name);
        Tokens { inner: out }
    }

    pub fn into_inner(self) -> (r: VecDeque<Token>)
        ensures
            token_views(r@) == self@,
    {
        self.inner
    }
}

} // verus!
