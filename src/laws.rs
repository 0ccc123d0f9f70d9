use vstd::prelude::*;
use crate::lexer::{
    flush, is_special, lex_from, tokenize, TokenType, TokenView, COMMA, ESCAPE, LEFT_BRACKET,
    RIGHT_BRACKET,
};
use crate::parser::{lemma_parse_consumes, parse_text, parse_tokens, ArtistView, ParseError};

verus! {

/// Text without backslashes, brackets or commas.
pub open spec fn plain(s: Seq<char>) -> bool {
    forall|i: int| 0 <= i < s.len() ==> !is_special(#[trigger] s[i])
}

/// The text that denotes the name `n`: each special character is preceded by a backslash.
pub open spec fn escape_text(n: Seq<char>) -> Seq<char>
    decreases n.len(),
{
    if n.len() == 0 {
        Seq::empty()
    } else if is_special(n[0]) {
        seq![ESCAPE, n[0]] + escape_text(n.drop_first())
    } else {
        seq![n[0]] + escape_text(n.drop_first())
    }
}

/// Reading a run of plain characters in the normal state only extends the pending name.
proof fn lemma_lex_plain(s: Seq<char>, i: nat, k: nat, name: Seq<char>, out: Seq<TokenView>)
    requires
        i + k <= s.len(),
        forall|j: int| i <= j < i + k ==> !is_special(#[trigger] s[j]),
    ensures
        lex_from(s, i, false, name, out) == lex_from(
            s,
            i + k,
            false,
            name + s.subrange(i as int, (i + k) as int),
            out,
        ),
    decreases k,
{
    if k == 0 {
        assert(name + s.subrange(i as int, i as int) =~= name);
    } else {
        assert(!is_special(s[i as int]));
        lemma_lex_plain(s, i + 1, (k - 1) as nat, name.push(s[i as int]), out);
        assert(name.push(s[i as int]) + s.subrange(i + 1int, (i + k) as int) =~= name + s.subrange(
            i as int,
            (i + k) as int,
        ));
    }
}

/// Text without special characters is one name token, the whole text.
pub proof fn law_plain_text_is_one_name(s: Seq<char>)
    requires
        plain(s),
        s.len() > 0,
    ensures
        tokenize(s) == seq![(TokenType::ArtistName, s)],
{
    lemma_lex_plain(s, 0, s.len(), Seq::empty(), Seq::empty());
    assert(Seq::<char>::empty() + s.subrange(0, s.len() as int) =~= s);
    assert(Seq::<TokenView>::empty().push((TokenType::ArtistName, s)) =~= seq![
        (TokenType::ArtistName, s),
    ]);
}

/// Wherever the tokenizer meets two commas in its normal state, they add one
/// literal comma to the pending name and emit no token.
pub proof fn law_double_comma_is_literal(
    s: Seq<char>,
    i: nat,
    name: Seq<char>,
    out: Seq<TokenView>,
)
    requires
        i + 1 < s.len(),
        s[i as int] == COMMA,
        s[i + 1int] == COMMA,
    ensures
        lex_from(s, i, false, name, out) == lex_from(s, i + 2, false, name.push(COMMA), out),
{
    assert(lex_from(s, i, false, name, out) == lex_from(s, i + 1, true, name, out));
}

/// Wherever the tokenizer meets a backslash in its normal state, the character
/// after it is added to the pending name as it is, whatever it is.
pub proof fn law_backslash_escapes_next(
    s: Seq<char>,
    i: nat,
    name: Seq<char>,
    out: Seq<TokenView>,
)
    requires
        i + 1 < s.len(),
        s[i as int] == ESCAPE,
    ensures
        lex_from(s, i, false, name, out) == lex_from(s, i + 2, false, name.push(s[i + 1int]), out),
{
    assert(lex_from(s, i, false, name, out) == lex_from(s, i + 1, true, name, out));
}

/// Wherever the tokenizer meets, in its normal state, a comma that no comma
/// follows, the pending name ends there and a comma token is emitted.
pub proof fn law_single_comma_delimits(
    s: Seq<char>,
    i: nat,
    name: Seq<char>,
    out: Seq<TokenView>,
)
    requires
        i < s.len(),
        s[i as int] == COMMA,
        !(i + 1 < s.len() && s[i + 1int] == COMMA),
    ensures
        lex_from(s, i, false, name, out) == lex_from(
            s,
            i + 1,
            false,
            Seq::empty(),
            flush(out, name).push((TokenType::Comma, seq![COMMA])),
        ),
{
}

/// Reading escaped text in the normal state only extends the pending name by
/// the text it denotes.
proof fn lemma_lex_escaped(p: Seq<char>, n: Seq<char>, name: Seq<char>, out: Seq<TokenView>)
    ensures
        lex_from(p + escape_text(n), p.len(), false, name, out) == flush(out, name + n),
    decreases n.len(),
{
    let s = p + escape_text(n);
    if n.len() == 0 {
        assert(s =~= p);
        assert(name + n =~= name);
    } else {
        let n2 = n.drop_first();
        if is_special(n[0]) {
            let p2 = p + seq![ESCAPE, n[0]];
            assert(s =~= p2 + escape_text(n2));
            assert(s[p.len() as int] == ESCAPE);
            assert(s[p.len() + 1int] == n[0]);
            assert(lex_from(s, p.len(), false, name, out) == lex_from(s, p.len() + 1, true, name, out));
            lemma_lex_escaped(p2, n2, name.push(n[0]), out);
        } else {
            let p2 = p.push(n[0]);
            assert(s =~= p2 + escape_text(n2));
            assert(s[p.len() as int] == n[0]);
            lemma_lex_escaped(p2, n2, name.push(n[0]), out);
        }
        assert(name.push(n[0]) + n2 =~= name + n);
    }
}

/// Writing a name back as text, with its special characters escaped, and
/// tokenizing that text again gives the same name token.
pub proof fn law_escaped_name_round_trip(n: Seq<char>)
    requires
        n.len() > 0,
    ensures
        tokenize(escape_text(n)) == seq![(TokenType::ArtistName, n)],
{
    lemma_lex_escaped(Seq::empty(), n, Seq::empty(), Seq::empty());
    assert(Seq::<char>::empty() + escape_text(n) =~= escape_text(n));
    assert(Seq::<char>::empty() + n =~= n);
    assert(Seq::<TokenView>::empty().push((TokenType::ArtistName, n)) =~= seq![
        (TokenType::ArtistName, n),
    ]);
}

/// Empty text gives no tokens, and no tokens give no list.
pub proof fn law_empty_input()
    ensures
        tokenize(Seq::empty()) == Seq::<TokenView>::empty(),
        parse_tokens(Seq::empty()) == Err::<(Seq<ArtistView>, Seq<TokenView>), ParseError>(
            ParseError::InsufficientTokens,
        ),
        parse_text(Seq::empty()) == Err::<Seq<ArtistView>, ParseError>(
            ParseError::InsufficientTokens,
        ),
{
}

/// Plain text, a left bracket and, optionally, plain text and a right bracket:
/// the tokens of `a（` and of `a（c）`.
proof fn lemma_tokens_nested_plain(a: Seq<char>, c: Seq<char>, closed: bool)
    requires
        plain(a),
        plain(c),
        a.len() > 0,
        closed ==> c.len() > 0,
    ensures
        closed ==> tokenize(a + seq![LEFT_BRACKET] + c + seq![RIGHT_BRACKET]) == seq![
            (TokenType::ArtistName, a),
            (TokenType::LBracket, seq![LEFT_BRACKET]),
            (TokenType::ArtistName, c),
            (TokenType::RBracket, seq![RIGHT_BRACKET]),
        ],
        !closed ==> tokenize(a + seq![LEFT_BRACKET]) == seq![
            (TokenType::ArtistName, a),
            (TokenType::LBracket, seq![LEFT_BRACKET]),
        ],
{
    let s = if closed {
        a + seq![LEFT_BRACKET] + c + seq![RIGHT_BRACKET]
    } else {
        a + seq![LEFT_BRACKET]
    };
    let e = Seq::<char>::empty();
    let none = Seq::<TokenView>::empty();
    assert forall|j: int| 0 <= j < a.len() implies !is_special(#[trigger] s[j]) by {
        assert(s[j] == a[j]);
    }
    lemma_lex_plain(s, 0, a.len(), e, none);
    assert(e + s.subrange(0, a.len() as int) =~= a);
    assert(s[a.len() as int] == LEFT_BRACKET);
    let after_open = seq![(TokenType::ArtistName, a), (TokenType::LBracket, seq![LEFT_BRACKET])];
    assert(flush(none, a).push((TokenType::LBracket, seq![LEFT_BRACKET])) =~= after_open);
    assert(lex_from(s, a.len(), false, a, none) == lex_from(s, a.len() + 1, false, e, after_open));
    if closed {
        let i = a.len() + 1;
        assert forall|j: int| i <= j < i + c.len() implies !is_special(#[trigger] s[j]) by {
            assert(s[j] == c[j - i]);
        }
        lemma_lex_plain(s, i, c.len(), e, after_open);
        assert(e + s.subrange(i as int, (i + c.len()) as int) =~= c);
        assert(s[(i + c.len()) as int] == RIGHT_BRACKET);
        let all = seq![
            (TokenType::ArtistName, a),
            (TokenType::LBracket, seq![LEFT_BRACKET]),
            (TokenType::ArtistName, c),
            (TokenType::RBracket, seq![RIGHT_BRACKET]),
        ];
        assert(flush(after_open, c).push((TokenType::RBracket, seq![RIGHT_BRACKET])) =~= all);
        assert(lex_from(s, i + c.len(), false, c, after_open) == lex_from(
            s,
            i + c.len() + 1,
            false,
            e,
            all,
        ));
    }
}

/// An unmatched left bracket at the end of the text: the nested group finds no
/// tokens where its first name should be.
pub proof fn law_unclosed_bracket_at_end(a: Seq<char>)
    requires
        plain(a),
        a.len() > 0,
    ensures
        parse_text(a + seq![LEFT_BRACKET]) == Err::<Seq<ArtistView>, ParseError>(
            ParseError::InsufficientTokens,
        ),
{
    lemma_tokens_nested_plain(a, Seq::empty(), false);
    let t = tokenize(a + seq![LEFT_BRACKET]);
    assert(t.skip(2) =~= Seq::<TokenView>::empty());
    assert(t[0].0 == TokenType::ArtistName && t[1].0 == TokenType::LBracket);
    assert(parse_tokens(t.skip(2)) is Err);
    assert(parse_tokens(t) is Err);
}

/// Closing the tokens of a complete list with a right bracket leaves the
/// list as it was, and the bracket unread.
proof fn lemma_parse_then_close(t: Seq<TokenView>, close: TokenView)
    requires
        close.0 == TokenType::RBracket,
        parse_tokens(t) is Ok,
    ensures
        parse_tokens(t + seq![close]) == Ok::<(Seq<ArtistView>, Seq<TokenView>), ParseError>(
            (parse_tokens(t)->Ok_0.0, parse_tokens(t)->Ok_0.1 + seq![close]),
        ),
    decreases t.len(),
{
    let u = t + seq![close];
    assert(u[0] == t[0]);
    if t.len() == 1 {
        assert(u.skip(1) =~= t.skip(1) + seq![close]);
    } else {
        assert(u[1] == t[1]);
        assert(u.skip(1) =~= t.skip(1) + seq![close]);
        assert(u.skip(2) =~= t.skip(2) + seq![close]);
        if t[1].0 == TokenType::LBracket {
            lemma_parse_then_close(t.skip(2), close);
            lemma_parse_consumes(t.skip(2));
            let rest = parse_tokens(t.skip(2))->Ok_0.1;
            let rest_u = rest + seq![close];
            assert(rest_u[0] == rest[0]);
            if rest.len() > 1 {
                assert(rest_u[1] == rest[1]);
                assert(rest_u.skip(1) =~= rest.skip(1) + seq![close]);
                assert(rest_u.skip(2) =~= rest.skip(2) + seq![close]);
                if rest[1].0 == TokenType::Comma {
                    lemma_parse_then_close(rest.skip(2), close);
                }
            } else {
                assert(rest_u.skip(1) =~= rest.skip(1) + seq![close]);
            }
        } else if t[1].0 == TokenType::Comma {
            lemma_parse_then_close(t.skip(2), close);
        }
    }
}

/// A name followed by a bracketed group whose tokens form one complete list:
/// the result is one artist with that name, whose children are the list
/// parsed from the group's tokens alone.
pub proof fn law_nested_group(name: Seq<char>, inner: Seq<TokenView>)
    requires
        parse_tokens(inner) matches Ok((_, rest)) && rest.len() == 0,
    ensures
        parse_tokens(
            seq![
                (TokenType::ArtistName, name),
                (TokenType::LBracket, seq![LEFT_BRACKET]),
            ] + inner + seq![(TokenType::RBracket, seq![RIGHT_BRACKET])],
        ) == Ok::<(Seq<ArtistView>, Seq<TokenView>), ParseError>(
            (
                seq![
                    ArtistView {
                        name,
                        references: Some(parse_tokens(inner)->Ok_0.0),
                    },
                ],
                Seq::empty(),
            ),
        ),
{
    let close = (TokenType::RBracket, seq![RIGHT_BRACKET]);
    let t = seq![(TokenType::ArtistName, name), (TokenType::LBracket, seq![LEFT_BRACKET])] + inner
        + seq![close];
    lemma_parse_then_close(inner, close);
    assert(t.skip(2) =~= inner + seq![close]);
    assert(parse_tokens(inner)->Ok_0.1 + seq![close] =~= seq![close]);
    assert(seq![close].skip(1) =~= Seq::<TokenView>::empty());
}

/// A plain name with one plain name in brackets: one artist whose only child
/// is the bracketed name.
pub proof fn law_nested_plain_names(a: Seq<char>, c: Seq<char>)
    requires
        plain(a),
        plain(c),
        a.len() > 0,
        c.len() > 0,
    ensures
        parse_text(a + seq![LEFT_BRACKET] + c + seq![RIGHT_BRACKET]) == Ok::<
            Seq<ArtistView>,
            ParseError,
        >(seq![ArtistView { name: a, references: Some(seq![ArtistView { name: c, references: None }]) }]),
{
    lemma_tokens_nested_plain(a, c, true);
    let inner = seq![(TokenType::ArtistName, c)];
    law_nested_group(a, inner);
    assert(seq![
        (TokenType::ArtistName, a),
        (TokenType::LBracket, seq![LEFT_BRACKET]),
    ] + inner + seq![(TokenType::RBracket, seq![RIGHT_BRACKET])] =~= tokenize(
        a + seq![LEFT_BRACKET] + c + seq![RIGHT_BRACKET],
    ));
}

/// Between two runs of plain text, an escape marker and the character it
/// escapes (a backslash and any character, or a comma and a second comma)
/// give one name holding that character in their place.
pub proof fn law_escape_inside_name(a: Seq<char>, marker: char, c: char, b: Seq<char>)
    requires
        plain(a),
        plain(b),
        marker == ESCAPE || (marker == COMMA && c == COMMA),
    ensures
        tokenize(a + seq![marker, c] + b) == seq![(TokenType::ArtistName, a.push(c) + b)],
{
    let s = a + seq![marker, c] + b;
    let e = Seq::<char>::empty();
    let none = Seq::<TokenView>::empty();
    assert forall|j: int| 0 <= j < a.len() implies !is_special(#[trigger] s[j]) by {
        assert(s[j] == a[j]);
    }
    lemma_lex_plain(s, 0, a.len(), e, none);
    assert(e + s.subrange(0, a.len() as int) =~= a);
    assert(s[a.len() as int] == marker);
    assert(s[a.len() + 1int] == c);
    assert(lex_from(s, a.len(), false, a, none) == lex_from(s, a.len() + 1, true, a, none));
    let i = a.len() + 2;
    assert forall|j: int| i <= j < i + b.len() implies !is_special(#[trigger] s[j]) by {
        assert(s[j] == b[j - i]);
    }
    lemma_lex_plain(s, i, b.len(), a.push(c), none);
    assert(a.push(c) + s.subrange(i as int, (i + b.len()) as int) =~= a.push(c) + b);
    assert(none.push((TokenType::ArtistName, a.push(c) + b)) =~= seq![
        (TokenType::ArtistName, a.push(c) + b),
    ]);
}

} // verus!
