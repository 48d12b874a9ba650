//! Calculator tokens, and the token sheets that turn text into tokens and back.
use vstd::prelude::*;

verus! {

/// One token of a calculator program.
#[derive(Debug, Clone, Copy, PartialEq, Eq, Structural)]
pub enum Token {
    OneByte(u8),
    TwoByte(u8, u8),
}

/// The bytes of one token.
pub open spec fn bytes_of_token(t: Token) -> Seq<u8> {
    match t {
        Token::OneByte(a) => seq![a],
        Token::TwoByte(a, b) => seq![a, b],
    }
}

/// The bytes of a token stream, token after token.
pub open spec fn token_bytes(ts: Seq<Token>) -> Seq<u8>
    decreases ts.len(),
{
    if ts.len() == 0 {
        Seq::empty()
    } else {
        token_bytes(ts.drop_last()) + bytes_of_token(ts.last())
    }
}

/// What the token sheets make of a text: `None` where some part of it is no
/// token's name.
pub uninterp spec fn tokenized(text: Seq<char>) -> Option<Seq<Token>>;

/// The text that the token sheets give for a token stream.
pub uninterp spec fn rendered(tokens: Seq<Token>) -> Seq<char>;

/// Relies on titokens' `Tokenizer::new(Version::latest(), "en")` and
/// `Tokenizer::tokenize`: the result depends on the text alone, and an empty
/// text gives no tokens.
#[verifier::external_body]
fn tokenize_with_sheets(text: &str) -> (r: Option<Vec<Token>>)
    ensures
        r is Some ==> tokenized(text@) == Some(r->Some_0@),
        r is None ==> tokenized(text@) is None,
        text@.len() == 0 ==> r is Some && r->Some_0@.len() == 0,
{
    let sheets = titokens::Tokenizer::new(titokens::Version::latest(), "en");
    match sheets.tokenize(text) {
        Ok((tokens, _)) => Some(
            tokens.map(|t| match t {
                titokens::Token::OneByte(a) => Token::OneByte(a),
                titokens::Token::TwoByte(a, b) => Token::TwoByte(a, b),
            }).collect(),
        ),
        Err(_) => None,
    }
}

/// Relies on titokens' `Tokens::to_string` with the sheets of
/// `Tokenizer::new(Version::latest(), "en")`: the text depends on the tokens
/// alone.
#[verifier::external_body]
fn render_with_sheets(tokens: &Vec<Token>) -> (r: String)
    ensures
        r@ == rendered(tokens@),
{
    let sheets = titokens::Tokenizer::new(titokens::Version::latest(), "en");
    let raw: Vec<titokens::Token> = tokens.iter().map(|t| match *t {
        Token::OneByte(a) => titokens::Token::OneByte(a),
        Token::TwoByte(a, b) => titokens::Token::TwoByte(a, b),
    }).collect();
    titokens::Tokens::from_vec(raw, None).to_string(&sheets)
}

/// The tokens of a text, or `None` where the text holds something that is no
/// token.
pub fn tokenize(text: &str) -> (r: Option<Vec<Token>>)
    ensures
        r matches Some(v) ==> tokenized(text@) == Some(v@),
        r is None ==> tokenized(text@) is None,
{
    tokenize_with_sheets(text)
}

/// The source text of a token stream.
pub fn render(tokens: &Vec<Token>) -> (r: String)
    ensures
        r@ == rendered(tokens@),
{
    render_with_sheets(tokens)
}

/// The size in bytes of a token stream.
pub fn byte_count(tokens: &[Token]) -> (r: usize)
    requires
        tokens@.len() <= usize::MAX / 2,
    ensures
        r as nat == token_bytes(tokens@).len(),
{
    let mut n: usize = 0;
    let mut i: usize = 0;
    while i < tokens.len()
        invariant
            i <= tokens@.len() <= usize::MAX / 2,
            n as nat == token_bytes(tokens@.subrange(0, i as int)).len(),
            n <= 2 * i,
        decreases tokens@.len() - i,
    {
        assert(tokens@.subrange(0, i + 1).drop_last() == tokens@.subrange(0, i as int));
        match tokens[i] {
            Token::OneByte(_) => {
                n += 1;
            },
            Token::TwoByte(_, _) => {
                n += 2;
            },
        }
        i += 1;
    }
    assert(tokens@.subrange(0, tokens@.len() as int) == tokens@);
    n
}

/// The bytes of a token stream.
pub fn tokens_to_bytes(tokens: &Vec<Token>) -> (r: Vec<u8>)
    ensures
        r@ == token_bytes(tokens@),
{
    let mut out: Vec<u8> = Vec::new();
    let mut i: usize = 0;
    while i < tokens.len()
        invariant
            i <= tokens@.len(),
            out@ == token_bytes(tokens@.subrange(0, i as int)),
        decreases tokens@.len() - i,
    {
        assert(tokens@.subrange(0, i + 1).drop_last() == tokens@.subrange(0, i as int));
        match tokens[i] {
            Token::OneByte(a) => {
                out.push(a);
            },
            Token::TwoByte(a, b) => {
                out.push(a);
                out.push(b);
            },
        }
        assert(out@ =~= token_bytes(tokens@.subrange(0, i + 1)));
        i += 1;
    }
    assert(tokens@.subrange(0, tokens@.len() as int) == tokens@);
    out
}

} // verus!
