//! The tokenizer: a single left-to-right pass that classifies the input
//! characters into typed spans. Each step either grows the last token of the
//! stream, pushes a new one, or reports that the character reaches a token
//! kind whose transition logic is not implemented.

use crate::heading::MAX_HEADING_SIZE;
use crate::token::SpecToken;
use crate::token::Token;
use crate::token::TokenType;
use vstd::prelude::*;

verus! {

/// The tokenizer never panics: a character whose handling would reach one of
/// the reserved, unimplemented token kinds yields this signal instead.
#[derive(Clone, Copy, Debug, PartialEq, Eq, Structural)]
pub enum TokenizeError {
    UnsupportedConstruct,
}

/// The stream with a new one-character token of kind `t` appended.
pub open spec fn push_new(tokens: Seq<SpecToken>, t: TokenType, c: char) -> Seq<SpecToken> {
    tokens.push(SpecToken { token_type: t, content: seq![c] })
}

/// The stream with `c` appended to the last token's content and that token's
/// kind set to `t`.
pub open spec fn grow_last(tokens: Seq<SpecToken>, t: TokenType, c: char) -> Seq<SpecToken> {
    tokens.update(
        tokens.len() - 1,
        SpecToken { token_type: t, content: tokens.last().content.push(c) },
    )
}

/// Transition on `'#'`: start or grow a header marker; a marker already at
/// the six-character cap degrades to a paragraph; inside paragraph or text a
/// `'#'` is literal content.
pub open spec fn step_hash(tokens: Seq<SpecToken>) -> Option<Seq<SpecToken>> {
    if tokens.len() == 0 {
        Some(push_new(tokens, TokenType::Header, '#'))
    } else {
        match tokens.last().token_type {
            TokenType::Header => if tokens.last().content.len() < MAX_HEADING_SIZE {
                Some(grow_last(tokens, TokenType::Header, '#'))
            } else {
                Some(grow_last(tokens, TokenType::Paragraph, '#'))
            },
            TokenType::WhiteSpace => Some(push_new(tokens, TokenType::Header, '#')),
            TokenType::Paragraph => Some(grow_last(tokens, TokenType::Paragraph, '#')),
            TokenType::Text => Some(grow_last(tokens, TokenType::Text, '#')),
            _ => None,
        }
    }
}

/// Transition on `' '`: after the `'#'`-run of a header it is the separating
/// space; after a header that already ends in a space it begins the body
/// text. Whitespace adjacent to other kinds is an unimplemented construct.
pub open spec fn step_space(tokens: Seq<SpecToken>) -> Option<Seq<SpecToken>> {
    if tokens.len() == 0 {
        Some(push_new(tokens, TokenType::WhiteSpace, ' '))
    } else {
        match tokens.last().token_type {
            TokenType::Header => if tokens.last().content.last() == '#' {
                Some(grow_last(tokens, TokenType::Header, ' '))
            } else if tokens.last().content.last() == ' ' {
                Some(push_new(tokens, TokenType::Text, ' '))
            } else {
                None
            },
            _ => None,
        }
    }
}

/// Transition on any other character: text keeps growing; after bare
/// whitespace a paragraph begins; after a complete header marker the heading
/// body begins; a header whose `'#'`-run was not closed by a space degrades
/// to a paragraph.
pub open spec fn step_other(tokens: Seq<SpecToken>, c: char) -> Option<Seq<SpecToken>> {
    if tokens.len() == 0 {
        Some(push_new(tokens, TokenType::Paragraph, c))
    } else {
        match tokens.last().token_type {
            TokenType::Text => Some(grow_last(tokens, TokenType::Text, c)),
            TokenType::WhiteSpace => Some(push_new(tokens, TokenType::Paragraph, c)),
            TokenType::Header => if tokens.last().content.last() == ' ' {
                Some(push_new(tokens, TokenType::Text, c))
            } else if tokens.last().content.last() == '#' {
                Some(grow_last(tokens, TokenType::Paragraph, c))
            } else {
                None
            },
            _ => None,
        }
    }
}

/// One transition of the state machine: the stream after consuming `c`, or
/// `None` when `c` reaches an unimplemented token kind.
pub open spec fn step(tokens: Seq<SpecToken>, c: char) -> Option<Seq<SpecToken>> {
    if c == '#' {
        step_hash(tokens)
    } else if c == ' ' {
        step_space(tokens)
    } else {
        step_other(tokens, c)
    }
}

/// The token stream that consuming all of `s` yields, or `None` when some
/// character of `s` reaches an unimplemented token kind.
pub open spec fn spec_tokenize(s: Seq<char>) -> Option<Seq<SpecToken>>
    decreases s.len(),
{
    if s.len() == 0 {
        Some(Seq::empty())
    } else {
        match spec_tokenize(s.drop_last()) {
            Some(tokens) => step(tokens, s.last()),
            None => None,
        }
    }
}

/// The concatenation of the tokens' contents, in stream order.
pub open spec fn concat_contents(tokens: Seq<SpecToken>) -> Seq<char>
    decreases tokens.len(),
{
    if tokens.len() == 0 {
        Seq::empty()
    } else {
        concat_contents(tokens.drop_last()) + tokens.last().content
    }
}

/// Every token a transition leaves behind has nonempty content.
pub open spec fn all_nonempty(tokens: Seq<SpecToken>) -> bool {
    forall|k: int| 0 <= k < tokens.len() ==> tokens[k].content.len() > 0
}

/// Pushing a one-character token appends exactly that character to the
/// concatenated contents and keeps every content nonempty.
proof fn lemma_concat_push(tokens: Seq<SpecToken>, t: TokenType, c: char)
    requires
        all_nonempty(tokens),
    ensures
        concat_contents(push_new(tokens, t, c)) == concat_contents(tokens).push(c),
        all_nonempty(push_new(tokens, t, c)),
{
    let t2 = push_new(tokens, t, c);
    assert(t2.drop_last() =~= tokens);
    assert(concat_contents(t2) == concat_contents(tokens) + seq![c]);
    assert(concat_contents(tokens) + seq![c] =~= concat_contents(tokens).push(c));
}

/// Growing the last token appends exactly the new character to the
/// concatenated contents and keeps every content nonempty.
proof fn lemma_concat_grow(tokens: Seq<SpecToken>, t: TokenType, c: char)
    requires
        tokens.len() > 0,
        all_nonempty(tokens),
    ensures
        concat_contents(grow_last(tokens, t, c)) == concat_contents(tokens).push(c),
        all_nonempty(grow_last(tokens, t, c)),
{
    let t2 = grow_last(tokens, t, c);
    assert(t2.drop_last() =~= tokens.drop_last());
    assert(t2.last() == SpecToken { token_type: t, content: tokens.last().content.push(c) });
    assert(concat_contents(t2) == concat_contents(tokens.drop_last())
        + tokens.last().content.push(c));
    assert(concat_contents(tokens.drop_last()) + tokens.last().content.push(c)
        =~= (concat_contents(tokens.drop_last()) + tokens.last().content).push(c));
}

/// One successful transition appends exactly the consumed character to the
/// concatenated contents, and keeps every token's content nonempty.
proof fn lemma_step_concat(tokens: Seq<SpecToken>, c: char)
    requires
        all_nonempty(tokens),
    ensures
        step(tokens, c) matches Some(t2) ==> {
            &&& concat_contents(t2) == concat_contents(tokens).push(c)
            &&& all_nonempty(t2)
        },
{
    // A successful step pushes a one-character token or grows the last one;
    // establish both facts for each kind the transitions can pick.
    lemma_concat_push(tokens, TokenType::Header, c);
    lemma_concat_push(tokens, TokenType::WhiteSpace, c);
    lemma_concat_push(tokens, TokenType::Paragraph, c);
    lemma_concat_push(tokens, TokenType::Text, c);
    if tokens.len() > 0 {
        lemma_concat_grow(tokens, TokenType::Header, c);
        lemma_concat_grow(tokens, TokenType::Paragraph, c);
        lemma_concat_grow(tokens, TokenType::Text, c);
    }
}

/// A rejected prefix dooms the whole input: once some prefix of `s` reaches
/// an unimplemented token kind, so does `s`.
proof fn lemma_tokenize_extends_none(s: Seq<char>, i: int)
    requires
        0 <= i <= s.len(),
        spec_tokenize(s.subrange(0, i)) is None,
    ensures
        spec_tokenize(s) is None,
    decreases s.len() - i,
{
    if i == s.len() {
        assert(s.subrange(0, i) =~= s);
    } else {
        assert(s.subrange(0, i + 1).drop_last() =~= s.subrange(0, i));
        assert(spec_tokenize(s.subrange(0, i + 1)) is None);
        lemma_tokenize_extends_none(s, i + 1);
    }
}

/// When the transition on the character at `i` fails, the whole input is
/// rejected.
proof fn lemma_tokenize_fails_at(s: Seq<char>, i: int, prev: Seq<SpecToken>)
    requires
        0 <= i < s.len(),
        spec_tokenize(s.subrange(0, i)) == Some(prev),
        step(prev, s[i]) is None,
    ensures
        spec_tokenize(s) is None,
{
    assert(s.subrange(0, i + 1).drop_last() =~= s.subrange(0, i));
    assert(s.subrange(0, i + 1).last() == s[i]);
    assert(spec_tokenize(s.subrange(0, i + 1)) is None);
    lemma_tokenize_extends_none(s, i + 1);
}

/// Round trip: whenever the tokenizer accepts an input, concatenating the
/// contents of its tokens in order reproduces that input verbatim — the
/// tokens partition the input exactly. The tokens' contents are also never
/// empty.
pub proof fn lemma_tokenize_round_trip(s: Seq<char>)
    ensures
        spec_tokenize(s) matches Some(tokens) ==> {
            &&& concat_contents(tokens) == s
            &&& all_nonempty(tokens)
        },
    decreases s.len(),
{
    if s.len() > 0 {
        lemma_tokenize_round_trip(s.drop_last());
        if let Some(prev) = spec_tokenize(s.drop_last()) {
            lemma_step_concat(prev, s.last());
            if spec_tokenize(s) is Some {
                assert(s.drop_last().push(s.last()) =~= s);
            }
        }
    }
}

/// A run of `k` `'#'` characters.
pub open spec fn hash_run(k: int) -> Seq<char> {
    Seq::new(k as nat, |i: int| '#')
}

/// A bare run of one to six `'#'` characters is a single header token.
proof fn lemma_hash_run_tokenizes(k: int)
    requires
        1 <= k <= MAX_HEADING_SIZE as int,
    ensures
        spec_tokenize(hash_run(k)) == Some(
            seq![SpecToken { token_type: TokenType::Header, content: hash_run(k) }],
        ),
    decreases k,
{
    let s = hash_run(k);
    assert(s.last() == '#');
    if k == 1 {
        assert(s.drop_last() =~= Seq::<char>::empty());
        assert(spec_tokenize(Seq::<char>::empty()) == Some(Seq::<SpecToken>::empty()));
        assert(spec_tokenize(s) == step(Seq::<SpecToken>::empty(), '#'));
        assert(push_new(Seq::<SpecToken>::empty(), TokenType::Header, '#') =~~= seq![
            SpecToken { token_type: TokenType::Header, content: hash_run(1) },
        ]);
    } else {
        lemma_hash_run_tokenizes(k - 1);
        assert(s.drop_last() =~= hash_run(k - 1));
        let prev = seq![SpecToken { token_type: TokenType::Header, content: hash_run(k - 1) }];
        assert(prev.last().content.len() < MAX_HEADING_SIZE);
        assert(grow_last(prev, TokenType::Header, '#') =~~= seq![
            SpecToken { token_type: TokenType::Header, content: hash_run(k) },
        ]);
    }
}

/// A run of one to six `'#'` characters closed by one space is a single
/// header token holding the marker and its trailing space.
proof fn lemma_marker_tokenizes(k: int)
    requires
        1 <= k <= MAX_HEADING_SIZE as int,
    ensures
        spec_tokenize(hash_run(k).push(' ')) == Some(
            seq![SpecToken { token_type: TokenType::Header, content: hash_run(k).push(' ') }],
        ),
{
    lemma_hash_run_tokenizes(k);
    let s = hash_run(k).push(' ');
    assert(s.drop_last() =~= hash_run(k));
    assert(s.last() == ' ');
    let prev = seq![SpecToken { token_type: TokenType::Header, content: hash_run(k) }];
    assert(prev.last().content.last() == '#');
    assert(grow_last(prev, TokenType::Header, ' ') =~~= seq![
        SpecToken { token_type: TokenType::Header, content: hash_run(k).push(' ') },
    ]);
}

/// The guarantee for valid ATX-style heading lines: a marker of one to six
/// `'#'` characters followed by exactly one space and then body text — the
/// body nonempty, free of spaces, and not beginning with `'#'` (a `'#'`
/// right after the marker's space would still grow the marker) — always
/// yields exactly two tokens: a header token holding the marker and its
/// trailing space, then a text token holding the body.
pub proof fn lemma_heading_line_tokens(k: int, body: Seq<char>)
    requires
        1 <= k <= MAX_HEADING_SIZE as int,
        body.len() > 0,
        body[0] != '#',
        forall|i: int| 0 <= i < body.len() ==> body[i] != ' ',
    ensures
        spec_tokenize(hash_run(k).push(' ') + body) == Some(
            seq![
                SpecToken { token_type: TokenType::Header, content: hash_run(k).push(' ') },
                SpecToken { token_type: TokenType::Text, content: body },
            ],
        ),
    decreases body.len(),
{
    let marker = hash_run(k).push(' ');
    let s = marker + body;
    if body.len() == 1 {
        lemma_marker_tokenizes(k);
        assert(s.drop_last() =~= marker);
        assert(s.last() == body[0]);
        let prev = seq![SpecToken { token_type: TokenType::Header, content: marker }];
        assert(prev.last().content.last() == ' ');
        assert(push_new(prev, TokenType::Text, body[0]) =~~= seq![
            SpecToken { token_type: TokenType::Header, content: marker },
            SpecToken { token_type: TokenType::Text, content: body },
        ]) by {
            assert(seq![body[0]] =~= body);
        }
    } else {
        let shorter = body.drop_last();
        lemma_heading_line_tokens(k, shorter);
        assert(s.drop_last() =~= marker + shorter);
        assert(s.last() == body.last());
        let prev = seq![
            SpecToken { token_type: TokenType::Header, content: marker },
            SpecToken { token_type: TokenType::Text, content: shorter },
        ];
        let c = body.last();
        assert(c != ' ');
        assert(grow_last(prev, TokenType::Text, c) =~~= seq![
            SpecToken { token_type: TokenType::Header, content: marker },
            SpecToken { token_type: TokenType::Text, content: body },
        ]) by {
            assert(shorter.push(c) =~= body);
        }
    }
}

/// The model of a token stream: the sequence of the tokens' models.
pub open spec fn stream_view(tokens: Seq<Token>) -> Seq<SpecToken> {
    tokens.map_values(|t: Token| t@)
}

/// Appends a new token of kind `kind` holding the one character of `piece`.
fn push_new_token(tokens: &mut Vec<Token>, kind: TokenType, piece: &str)
    requires
        piece@.len() == 1,
    ensures
        stream_view(final(tokens)@) == push_new(stream_view(old(tokens)@), kind, piece@[0]),
{
    tokens.push(Token { token_type: kind, content: piece.to_owned() });
    proof {
        assert(piece@ =~= seq![piece@[0]]);
        assert(stream_view(tokens@) =~= push_new(stream_view(old(tokens)@), kind, piece@[0]));
    }
}

/// Appends the one character of `piece` to the last token's content and sets
/// that token's kind to `kind`.
fn grow_last_token(tokens: &mut Vec<Token>, kind: TokenType, piece: &str)
    requires
        piece@.len() == 1,
        old(tokens)@.len() > 0,
    ensures
        stream_view(final(tokens)@) == grow_last(stream_view(old(tokens)@), kind, piece@[0]),
{
    let mut tok = tokens.pop().unwrap();
    tok.token_type = kind;
    tok.content.append(piece);
    tokens.push(tok);
    proof {
        let last = old(tokens)@.len() - 1;
        assert(piece@ =~= seq![piece@[0]]);
        assert(old(tokens)@[last].content@ + piece@ =~= old(tokens)@[last].content@.push(
            piece@[0],
        ));
        assert(stream_view(tokens@) =~= grow_last(stream_view(old(tokens)@), kind, piece@[0]));
    }
}

/// Tokenizes the input in one left-to-right pass: the token stream of the
/// state machine, whose tokens partition the input exactly, or the
/// unsupported-construct signal when some character reaches a token kind
/// whose transition logic is not implemented. Never panics.
pub fn tokenize(markdown: &str) -> (r: Result<Vec<Token>, TokenizeError>)
    ensures
        match r {
            Ok(tokens) => {
                &&& spec_tokenize(markdown@) == Some(stream_view(tokens@))
                &&& concat_contents(stream_view(tokens@)) == markdown@
            },
            Err(_) => spec_tokenize(markdown@) is None,
        },
{
    let n = markdown.unicode_len();
    let mut tokens: Vec<Token> = Vec::new();
    proof {
        assert(markdown@.subrange(0, 0) =~= Seq::<char>::empty());
        assert(stream_view(tokens@) =~= Seq::<SpecToken>::empty());
    }
    let mut i: usize = 0;
    while i < n
        invariant
            i <= n,
            n == markdown@.len(),
            spec_tokenize(markdown@.subrange(0, i as int)) == Some(stream_view(tokens@)),
            all_nonempty(stream_view(tokens@)),
        decreases n - i,
    {
        let ghost prev = stream_view(tokens@);
        let piece = markdown.substring_char(i, i + 1);
        let c = markdown.get_char(i);
        proof {
            assert(piece@ =~= seq![markdown@[i as int]]);
        }
        if tokens.len() == 0 {
            if c == '#' {
                push_new_token(&mut tokens, TokenType::Header, piece);
            } else if c == ' ' {
                push_new_token(&mut tokens, TokenType::WhiteSpace, piece);
            } else {
                push_new_token(&mut tokens, TokenType::Paragraph, piece);
            }
        } else {
            let last = tokens.len() - 1;
            let last_kind = tokens[last].token_type;
            proof {
                assert(prev.last() == tokens@[last as int]@);
            }
            if c == '#' {
                match last_kind {
                    TokenType::Header => {
                        if tokens[last].content.as_str().unicode_len() < MAX_HEADING_SIZE {
                            grow_last_token(&mut tokens, TokenType::Header, piece);
                        } else {
                            grow_last_token(&mut tokens, TokenType::Paragraph, piece);
                        }
                    },
                    TokenType::WhiteSpace => {
                        push_new_token(&mut tokens, TokenType::Header, piece);
                    },
                    TokenType::Paragraph => {
                        grow_last_token(&mut tokens, TokenType::Paragraph, piece);
                    },
                    TokenType::Text => {
                        grow_last_token(&mut tokens, TokenType::Text, piece);
                    },
                    _ => {
                        proof {
                            lemma_tokenize_fails_at(markdown@, i as int, prev);
                        }
                        return Err(TokenizeError::UnsupportedConstruct);
                    },
                }
            } else if c == ' ' {
                match last_kind {
                    TokenType::Header => {
                        let clen = tokens[last].content.as_str().unicode_len();
                        let lastc = tokens[last].content.as_str().get_char(clen - 1);
                        if lastc == '#' {
                            grow_last_token(&mut tokens, TokenType::Header, piece);
                        } else if lastc == ' ' {
                            push_new_token(&mut tokens, TokenType::Text, piece);
                        } else {
                            proof {
                                lemma_tokenize_fails_at(markdown@, i as int, prev);
                            }
                            return Err(TokenizeError::UnsupportedConstruct);
                        }
                    },
                    _ => {
                        proof {
                            lemma_tokenize_fails_at(markdown@, i as int, prev);
                        }
                        return Err(TokenizeError::UnsupportedConstruct);
                    },
                }
            } else {
                match last_kind {
                    TokenType::Text => {
                        grow_last_token(&mut tokens, TokenType::Text, piece);
                    },
                    TokenType::WhiteSpace => {
                        push_new_token(&mut tokens, TokenType::Paragraph, piece);
                    },
                    TokenType::Header => {
                        let clen = tokens[last].content.as_str().unicode_len();
                        let lastc = tokens[last].content.as_str().get_char(clen - 1);
                        if lastc == ' ' {
                            push_new_token(&mut tokens, TokenType::Text, piece);
                        } else if lastc == '#' {
                            grow_last_token(&mut tokens, TokenType::Paragraph, piece);
                        } else {
                            proof {
                                lemma_tokenize_fails_at(markdown@, i as int, prev);
                            }
                            return Err(TokenizeError::UnsupportedConstruct);
                        }
                    },
                    _ => {
                        proof {
                            lemma_tokenize_fails_at(markdown@, i as int, prev);
                        }
                        return Err(TokenizeError::UnsupportedConstruct);
                    },
                }
            }
        }
        proof {
            assert(markdown@.subrange(0, i + 1).drop_last() =~= markdown@.subrange(0, i as int));
            assert(markdown@.subrange(0, i + 1).last() == markdown@[i as int]);
            assert(step(prev, c) == Some(stream_view(tokens@)));
            lemma_step_concat(prev, c);
        }
        i = i + 1;
    }
    proof {
        assert(markdown@.subrange(0, n as int) =~= markdown@);
        lemma_tokenize_round_trip(markdown@);
    }
    Ok(tokens)
}

} // verus!
