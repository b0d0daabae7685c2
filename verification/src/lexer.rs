//! The lexer: a single pass over the source characters with one character
//! of lookahead. It produces the complete ordered token sequence when no
//! invalid character occurs, and the complete list of invalid tokens
//! otherwise — scanning never stops at the first invalid character.

use vstd::prelude::*;
use crate::text::{
    is_alphabetic_char, is_alphanumeric_char, is_ascii_digit_char, is_digit_char,
    is_whitespace_char, str_eq, string_from_chars,
};
use crate::token::{Keyword, Token, TokenModel};

verus! {

// ---------------------------------------------------------------------------
// The lexer as a mathematical function over the character sequence
// ---------------------------------------------------------------------------

/// The first position at or after `i` holding a non-whitespace character,
/// or the end of the input.
pub open spec fn sp_skip_ws(chars: Seq<char>, i: int) -> int
    decreases chars.len() - i,
    when 0 <= i
{
    if i >= chars.len() {
        i
    } else if is_whitespace_char(chars[i]) {
        sp_skip_ws(chars, i + 1)
    } else {
        i
    }
}

/// The first position at or after `i` where a run of identifier characters
/// (alphanumeric or underscore) ends.
pub open spec fn sp_word_end(chars: Seq<char>, i: int) -> int
    decreases chars.len() - i,
    when 0 <= i
{
    if i >= chars.len() {
        i
    } else if is_alphanumeric_char(chars[i]) || chars[i] == '_' {
        sp_word_end(chars, i + 1)
    } else {
        i
    }
}

/// The first position at or after `i` where a run of decimal digits ends.
pub open spec fn sp_num_end(chars: Seq<char>, i: int) -> int
    decreases chars.len() - i,
    when 0 <= i
{
    if i >= chars.len() {
        i
    } else if is_digit_char(chars[i]) {
        sp_num_end(chars, i + 1)
    } else {
        i
    }
}

pub proof fn lemma_skip_ws(chars: Seq<char>, i: int)
    requires
        0 <= i <= chars.len(),
    ensures
        i <= sp_skip_ws(chars, i) <= chars.len(),
        forall|j: int| i <= j < sp_skip_ws(chars, i) ==> is_whitespace_char(chars[j]),
        sp_skip_ws(chars, i) < chars.len() ==> !is_whitespace_char(chars[sp_skip_ws(chars, i)]),
    decreases chars.len() - i,
{
    if i < chars.len() && is_whitespace_char(chars[i]) {
        lemma_skip_ws(chars, i + 1);
    }
}

pub proof fn lemma_word_end(chars: Seq<char>, i: int)
    requires
        0 <= i <= chars.len(),
    ensures
        i <= sp_word_end(chars, i) <= chars.len(),
    decreases chars.len() - i,
{
    if i < chars.len() && (is_alphanumeric_char(chars[i]) || chars[i] == '_') {
        lemma_word_end(chars, i + 1);
    }
}

pub proof fn lemma_num_end(chars: Seq<char>, i: int)
    requires
        0 <= i <= chars.len(),
    ensures
        i <= sp_num_end(chars, i) <= chars.len(),
    decreases chars.len() - i,
{
    if i < chars.len() && is_digit_char(chars[i]) {
        lemma_num_end(chars, i + 1);
    }
}

/// The token a maximal run of identifier characters denotes: the matching
/// keyword where the lexeme is one, an identifier otherwise.
pub open spec fn sp_word_token(lex: Seq<char>) -> TokenModel {
    if lex == "int"@ {
        TokenModel::Keywords(Keyword::Int)
    } else if lex == "if"@ {
        TokenModel::Keywords(Keyword::If)
    } else if lex == "else"@ {
        TokenModel::Keywords(Keyword::Else)
    } else if lex == "while"@ {
        TokenModel::Keywords(Keyword::While)
    } else if lex == "return"@ {
        TokenModel::Keywords(Keyword::Return)
    } else {
        TokenModel::Ident(lex)
    }
}

/// The token beginning at position `i`, which must hold a non-whitespace
/// character, together with the position just past it.
pub open spec fn sp_token_at(chars: Seq<char>, i: int) -> (TokenModel, int)
    recommends
        0 <= i < chars.len(),
{
    let c = chars[i];
    if c == '+' {
        (TokenModel::Plus, i + 1)
    } else if c == '-' {
        (TokenModel::Minus, i + 1)
    } else if c == '*' {
        (TokenModel::Times, i + 1)
    } else if c == '(' {
        (TokenModel::LParam, i + 1)
    } else if c == ')' {
        (TokenModel::RParam, i + 1)
    } else if c == '{' {
        (TokenModel::LBrace, i + 1)
    } else if c == '}' {
        (TokenModel::RBrace, i + 1)
    } else if c == '>' {
        if i + 1 < chars.len() && chars[i + 1] == '=' {
            (TokenModel::Ge, i + 2)
        } else {
            (TokenModel::Gt, i + 1)
        }
    } else if c == '<' {
        if i + 1 < chars.len() && chars[i + 1] == '=' {
            (TokenModel::Le, i + 2)
        } else {
            (TokenModel::Lt, i + 1)
        }
    } else if c == ';' {
        (TokenModel::Semicolon, i + 1)
    } else if c == ',' {
        (TokenModel::Comma, i + 1)
    } else if c == '!' {
        if i + 1 < chars.len() && chars[i + 1] == '=' {
            (TokenModel::Ne, i + 2)
        } else {
            (TokenModel::Invalid('!'), i + 1)
        }
    } else if c == '=' {
        if i + 1 < chars.len() && chars[i + 1] == '=' {
            (TokenModel::Equal, i + 2)
        } else {
            (TokenModel::Assign, i + 1)
        }
    } else if is_alphabetic_char(c) {
        let e = sp_word_end(chars, i + 1);
        (sp_word_token(chars.subrange(i, e)), e)
    } else if is_digit_char(c) {
        let e = sp_num_end(chars, i + 1);
        (TokenModel::Int(chars.subrange(i, e)), e)
    } else {
        (TokenModel::Invalid(c), i + 1)
    }
}

pub proof fn lemma_token_at_bounds(chars: Seq<char>, i: int)
    requires
        0 <= i < chars.len(),
    ensures
        i < sp_token_at(chars, i).1 <= chars.len(),
{
    lemma_word_end(chars, i + 1);
    lemma_num_end(chars, i + 1);
}

/// The complete lexing of the input from position `i` on: the ordered
/// token sequence, ending in the end-of-input sentinel, and the ordered
/// sequence of invalid tokens encountered.
pub open spec fn sp_lex_from(chars: Seq<char>, i: int) -> (Seq<TokenModel>, Seq<TokenModel>)
    decreases chars.len() - i,
    when 0 <= i
{
    if i >= chars.len() {
        (seq![TokenModel::EOF], Seq::<TokenModel>::empty())
    } else if is_whitespace_char(chars[i]) {
        sp_lex_from(chars, i + 1)
    } else {
        let tj = sp_token_at(chars, i);
        proof {
            lemma_token_at_bounds(chars, i);
        }
        let rest = sp_lex_from(chars, tj.1);
        if tj.0 is Invalid {
            (rest.0, seq![tj.0] + rest.1)
        } else {
            (seq![tj.0] + rest.0, rest.1)
        }
    }
}

/// Skipping leading whitespace does not change what is lexed.
pub proof fn lemma_lex_skip(chars: Seq<char>, i: int)
    requires
        0 <= i <= chars.len(),
    ensures
        sp_lex_from(chars, i) == sp_lex_from(chars, sp_skip_ws(chars, i)),
    decreases chars.len() - i,
{
    if i < chars.len() && is_whitespace_char(chars[i]) {
        lemma_lex_skip(chars, i + 1);
    }
}

/// The token views of a token sequence.
pub open spec fn sp_views(ts: Seq<Token>) -> Seq<TokenModel> {
    ts.map_values(|t: Token| t@)
}

// ---------------------------------------------------------------------------
// The executable lexer
// ---------------------------------------------------------------------------

/// The lexer's state: the input characters and a cursor into them.
pub struct Lexer {
    chars: Vec<char>,
    pos: usize,
}

fn is_word_char(c: char) -> (r: bool)
    ensures
        r == (is_alphanumeric_char(c) || c == '_'),
        is_alphabetic_char(c) ==> r,
{
    c.is_alphanumeric() || c == '_'
}

impl Lexer {
    /// The characters of the input being lexed.
    pub closed spec fn input(&self) -> Seq<char> {
        self.chars@
    }

    /// The current position of the read cursor.
    pub closed spec fn cursor(&self) -> int {
        self.pos as int
    }

    /// A fresh lexer over the given source text, with the cursor at the start.
    #[verifier::loop_isolation(false)]
    pub fn new(input: &str) -> (lx: Lexer)
        ensures
            lx.input() == input@,
            lx.cursor() == 0,
    {
        let n = input.unicode_len();
        let mut chars: Vec<char> = Vec::new();
        let mut i: usize = 0;
        while i < n
            invariant
                0 <= i <= n,
                chars@ =~= input@.subrange(0, i as int),
            decreases n - i,
        {
            chars.push(input.get_char(i));
            proof {
                assert(chars@ =~= input@.subrange(0, i + 1));
            }
            i += 1;
        }
        proof {
            assert(chars@ =~= input@);
        }
        Lexer { chars, pos: 0 }
    }

    #[verifier::loop_isolation(false)]
    fn process_num(&mut self) -> (t: Token)
        requires
            old(self).cursor() < old(self).input().len(),
            is_digit_char(old(self).input()[old(self).cursor()]),
        ensures
            final(self).input() == old(self).input(),
            final(self).cursor() == sp_num_end(old(self).input(), old(self).cursor() + 1),
            t@ == TokenModel::Int(
                old(self).input().subrange(old(self).cursor(), final(self).cursor()),
            ),
    {
        let ghost chars = self.chars@;
        let ghost start = self.pos as int;
        let mut num: Vec<char> = Vec::new();
        while self.pos < self.chars.len() && is_ascii_digit_char(self.chars[self.pos])
            invariant
                self.chars@ == chars,
                start <= self.pos <= chars.len(),
                num@ =~= chars.subrange(start, self.pos as int),
                self.pos > start ==> sp_num_end(chars, start + 1) == sp_num_end(
                    chars,
                    self.pos as int,
                ),
            decreases chars.len() - self.pos,
        {
            num.push(self.chars[self.pos]);
            proof {
                assert(num@ =~= chars.subrange(start, self.pos + 1));
                assert(sp_num_end(chars, self.pos as int) == sp_num_end(chars, self.pos + 1));
            }
            self.pos += 1;
        }
        proof {
            assert(self.pos > start);
            assert(self.pos as int == sp_num_end(chars, start + 1));
        }
        Token::Int(string_from_chars(&num))
    }

    #[verifier::loop_isolation(false)]
    fn process_alphabetic(&mut self) -> (t: Token)
        requires
            old(self).cursor() < old(self).input().len(),
            is_alphabetic_char(old(self).input()[old(self).cursor()]),
        ensures
            final(self).input() == old(self).input(),
            final(self).cursor() == sp_word_end(old(self).input(), old(self).cursor() + 1),
            t@ == sp_word_token(
                old(self).input().subrange(old(self).cursor(), final(self).cursor()),
            ),
    {
        let ghost chars = self.chars@;
        let ghost start = self.pos as int;
        let mut lex: Vec<char> = Vec::new();
        while self.pos < self.chars.len() && is_word_char(self.chars[self.pos])
            invariant
                self.chars@ == chars,
                start <= self.pos <= chars.len(),
                lex@ =~= chars.subrange(start, self.pos as int),
                self.pos > start ==> sp_word_end(chars, start + 1) == sp_word_end(
                    chars,
                    self.pos as int,
                ),
            decreases chars.len() - self.pos,
        {
            lex.push(self.chars[self.pos]);
            proof {
                assert(lex@ =~= chars.subrange(start, self.pos + 1));
                assert(sp_word_end(chars, self.pos as int) == sp_word_end(chars, self.pos + 1));
            }
            self.pos += 1;
        }
        proof {
            assert(self.pos > start);
            assert(self.pos as int == sp_word_end(chars, start + 1));
        }
        let s = string_from_chars(&lex);
        if Keyword::is_keyword(s.as_str()) {
            if str_eq(s.as_str(), "int") {
                Token::Keywords(Keyword::Int)
            } else if str_eq(s.as_str(), "if") {
                Token::Keywords(Keyword::If)
            } else if str_eq(s.as_str(), "else") {
                Token::Keywords(Keyword::Else)
            } else if str_eq(s.as_str(), "while") {
                Token::Keywords(Keyword::While)
            } else if str_eq(s.as_str(), "return") {
                Token::Keywords(Keyword::Return)
            } else {
                Token::Ident(s)
            }
        } else {
            Token::Ident(s)
        }
    }

    /// The next token at the cursor, after skipping whitespace: `Ok` for a
    /// well-formed token (with the end-of-input sentinel once the input is
    /// exhausted), `Err` for an invalid character, which is consumed so
    /// that scanning can continue.
    #[verifier::loop_isolation(false)]
    pub fn get_token(&mut self) -> (r: Result<Token, Token>)
        requires
            old(self).cursor() <= old(self).input().len(),
        ensures
            final(self).input() == old(self).input(),
            old(self).cursor() <= final(self).cursor() <= final(self).input().len(),
            ({
                let chars = old(self).input();
                let start = sp_skip_ws(chars, old(self).cursor());
                if start >= chars.len() {
                    &&& final(self).cursor() == chars.len()
                    &&& r matches Ok(t) && t@ == TokenModel::EOF
                } else {
                    let tj = sp_token_at(chars, start);
                    &&& final(self).cursor() == tj.1
                    &&& match r {
                        Ok(t) => t@ == tj.0 && !(tj.0 is Invalid),
                        Err(t) => t@ == tj.0 && tj.0 is Invalid,
                    }
                }
            }),
    {
        let ghost chars = self.chars@;
        let ghost c0 = self.pos as int;
        while self.pos < self.chars.len() && self.chars[self.pos].is_whitespace()
            invariant
                self.chars@ == chars,
                c0 <= self.pos <= chars.len(),
                sp_skip_ws(chars, c0) == sp_skip_ws(chars, self.pos as int),
            decreases chars.len() - self.pos,
        {
            proof {
                assert(sp_skip_ws(chars, self.pos as int) == sp_skip_ws(chars, self.pos + 1));
            }
            self.pos += 1;
        }
        proof {
            assert(self.pos as int == sp_skip_ws(chars, c0));
            lemma_token_at_bounds_or_end(chars, self.pos as int);
        }
        if self.pos >= self.chars.len() {
            return Ok(Token::EOF);
        }
        let c = self.chars[self.pos];
        let next_eq: bool = if self.pos + 1 < self.chars.len() {
            self.chars[self.pos + 1] == '='
        } else {
            false
        };
        if c == '+' {
            self.pos += 1;
            Ok(Token::Plus)
        } else if c == '-' {
            self.pos += 1;
            Ok(Token::Minus)
        } else if c == '*' {
            self.pos += 1;
            Ok(Token::Times)
        } else if c == '(' {
            self.pos += 1;
            Ok(Token::LParam)
        } else if c == ')' {
            self.pos += 1;
            Ok(Token::RParam)
        } else if c == '{' {
            self.pos += 1;
            Ok(Token::LBrace)
        } else if c == '}' {
            self.pos += 1;
            Ok(Token::RBrace)
        } else if c == '>' {
            if next_eq {
                self.pos += 2;
                Ok(Token::Ge)
            } else {
                self.pos += 1;
                Ok(Token::Gt)
            }
        } else if c == '<' {
            if next_eq {
                self.pos += 2;
                Ok(Token::Le)
            } else {
                self.pos += 1;
                Ok(Token::Lt)
            }
        } else if c == ';' {
            self.pos += 1;
            Ok(Token::Semicolon)
        } else if c == ',' {
            self.pos += 1;
            Ok(Token::Comma)
        } else if c == '!' {
            if next_eq {
                self.pos += 2;
                Ok(Token::Ne)
            } else {
                self.pos += 1;
                Err(Token::Invalid('!'))
            }
        } else if c == '=' {
            if next_eq {
                self.pos += 2;
                Ok(Token::Equal)
            } else {
                self.pos += 1;
                Ok(Token::Assign)
            }
        } else if c.is_alphabetic() {
            Ok(self.process_alphabetic())
        } else if is_ascii_digit_char(c) {
            Ok(self.process_num())
        } else {
            self.pos += 1;
            Err(Token::Invalid(c))
        }
    }

    /// The complete tokenization of the input: the full token sequence if
    /// no invalid character occurred, the full list of invalid tokens
    /// otherwise.
    pub fn to_tokens(self) -> (r: Result<Vec<Token>, Vec<Token>>)
        requires
            self.cursor() <= self.input().len(),
        ensures
            ({
                let lx = sp_lex_from(self.input(), self.cursor());
                match r {
                    Ok(tokens) => lx.1.len() == 0 && sp_views(tokens@) == lx.0,
                    Err(invalid) => lx.1.len() > 0 && sp_views(invalid@) == lx.1,
                }
            }),
    {
        let mut lx = self;
        let ghost chars = lx.chars@;
        let ghost c0 = lx.pos as int;
        let mut tokens: Vec<Token> = Vec::new();
        let mut invalid_tokens: Vec<Token> = Vec::new();
        loop
            invariant_except_break
                lx.chars@ == chars,
                0 <= lx.pos <= chars.len(),
                sp_lex_from(chars, c0).0 == sp_views(tokens@) + sp_lex_from(
                    chars,
                    lx.pos as int,
                ).0,
                sp_lex_from(chars, c0).1 == sp_views(invalid_tokens@) + sp_lex_from(
                    chars,
                    lx.pos as int,
                ).1,
            ensures
                sp_lex_from(chars, c0).0 == sp_views(tokens@),
                sp_lex_from(chars, c0).1 == sp_views(invalid_tokens@),
            decreases chars.len() - lx.pos,
        {
            let ghost pos_before = lx.pos as int;
            let step = lx.get_token();
            proof {
                lemma_skip_ws(chars, pos_before);
                lemma_lex_skip(chars, pos_before);
            }
            match step {
                Ok(token) => {
                    let is_end = matches!(token, Token::EOF);
                    proof {
                        let start = sp_skip_ws(chars, pos_before);
                        if start < chars.len() {
                            lemma_token_at_bounds(chars, start);
                            let tj = sp_token_at(chars, start);
                            assert(sp_views(tokens@.push(token)) =~= sp_views(tokens@) + seq![
                                token@,
                            ]);
                            assert(sp_views(tokens@) + (seq![tj.0] + sp_lex_from(chars, tj.1).0)
                                =~= (sp_views(tokens@) + seq![tj.0]) + sp_lex_from(chars, tj.1).0);
                        } else {
                            assert(sp_views(tokens@.push(token)) =~= sp_views(tokens@) + seq![
                                token@,
                            ]);
                            assert(sp_lex_from(chars, start) == (
                                seq![TokenModel::EOF],
                                Seq::<TokenModel>::empty(),
                            ));
                            assert(sp_views(tokens@) + seq![TokenModel::EOF] =~= sp_views(tokens@)
                                + seq![TokenModel::EOF] + Seq::<TokenModel>::empty());
                        }
                    }
                    tokens.push(token);
                    if is_end {
                        proof {
                            assert(sp_lex_from(chars, c0).0 =~= sp_views(tokens@));
                            assert(sp_lex_from(chars, c0).1 =~= sp_views(invalid_tokens@));
                        }
                        break;
                    }
                }
                Err(inv) => {
                    proof {
                        let start = sp_skip_ws(chars, pos_before);
                        lemma_token_at_bounds(chars, start);
                        let tj = sp_token_at(chars, start);
                        assert(sp_views(invalid_tokens@.push(inv)) =~= sp_views(invalid_tokens@)
                            + seq![inv@]);
                        assert(sp_views(invalid_tokens@) + (seq![tj.0] + sp_lex_from(
                            chars,
                            tj.1,
                        ).1) =~= (sp_views(invalid_tokens@) + seq![tj.0]) + sp_lex_from(
                            chars,
                            tj.1,
                        ).1);
                    }
                    invalid_tokens.push(inv);
                }
            }
        }
        if invalid_tokens.len() == 0 {
            proof {
                assert(sp_views(invalid_tokens@).len() == 0);
            }
            Ok(tokens)
        } else {
            proof {
                assert(sp_views(invalid_tokens@).len() > 0);
            }
            Err(invalid_tokens)
        }
    }
}

// ---------------------------------------------------------------------------
// Laws of the lexer
// ---------------------------------------------------------------------------

/// Whitespace-only input lexes to exactly one end-of-input token and no
/// invalid tokens.
pub proof fn lemma_whitespace_only_lex(chars: Seq<char>, i: int)
    requires
        0 <= i <= chars.len(),
        forall|j: int| 0 <= j < chars.len() ==> is_whitespace_char(chars[j]),
    ensures
        sp_lex_from(chars, i) == (seq![TokenModel::EOF], Seq::<TokenModel>::empty()),
    decreases chars.len() - i,
{
    if i < chars.len() {
        lemma_whitespace_only_lex(chars, i + 1);
    }
}

/// The end-of-input sentinel is always the final token, occurs exactly
/// once, and never appears among the invalid tokens.
pub proof fn lemma_lex_ends_with_eof(chars: Seq<char>, i: int)
    requires
        0 <= i <= chars.len(),
    ensures
        ({
            let lx = sp_lex_from(chars, i);
            &&& lx.0.len() >= 1
            &&& lx.0.last() == TokenModel::EOF
            &&& forall|j: int| 0 <= j < lx.0.len() - 1 ==> !(#[trigger] lx.0[j] is EOF)
            &&& forall|j: int| 0 <= j < lx.1.len() ==> !(#[trigger] lx.1[j] is EOF)
        }),
    decreases chars.len() - i,
{
    if i < chars.len() {
        if is_whitespace_char(chars[i]) {
            lemma_lex_ends_with_eof(chars, i + 1);
        } else {
            lemma_token_at_bounds(chars, i);
            let tj = sp_token_at(chars, i);
            lemma_lex_ends_with_eof(chars, tj.1);
            assert(!(tj.0 is EOF));
        }
    }
}

/// The number of input characters a token accounts for: the length of the
/// lexeme it was read from.
pub open spec fn sp_token_width(t: TokenModel) -> int {
    match t {
        TokenModel::Keywords(k) => match k {
            Keyword::Int => 3,
            Keyword::If => 2,
            Keyword::Else => 4,
            Keyword::While => 5,
            Keyword::Return => 6,
        },
        TokenModel::Ident(s) => s.len() as int,
        TokenModel::Int(s) => s.len() as int,
        TokenModel::Ge => 2,
        TokenModel::Le => 2,
        TokenModel::Ne => 2,
        TokenModel::Equal => 2,
        TokenModel::EOF => 0,
        _ => 1,
    }
}

/// The total width of a sequence of tokens.
pub open spec fn sp_width_sum(ts: Seq<TokenModel>) -> int
    decreases ts.len(),
{
    if ts.len() == 0 {
        0
    } else {
        sp_token_width(ts[0]) + sp_width_sum(ts.drop_first())
    }
}

/// The number of whitespace characters the lexer skips from position `i` on.
pub open spec fn sp_ws_skipped(chars: Seq<char>, i: int) -> int
    decreases chars.len() - i,
    when 0 <= i
{
    if i >= chars.len() {
        0
    } else if is_whitespace_char(chars[i]) {
        1 + sp_ws_skipped(chars, i + 1)
    } else {
        let tj = sp_token_at(chars, i);
        proof {
            lemma_token_at_bounds(chars, i);
        }
        sp_ws_skipped(chars, tj.1)
    }
}

proof fn lemma_token_at_width(chars: Seq<char>, i: int)
    requires
        0 <= i < chars.len(),
    ensures
        sp_token_width(sp_token_at(chars, i).0) == sp_token_at(chars, i).1 - i,
{
    reveal_strlit("int");
    reveal_strlit("if");
    reveal_strlit("else");
    reveal_strlit("while");
    reveal_strlit("return");
    lemma_word_end(chars, i + 1);
    lemma_num_end(chars, i + 1);
    let e1 = sp_word_end(chars, i + 1);
    let e2 = sp_num_end(chars, i + 1);
    assert(chars.subrange(i, e1).len() == e1 - i);
    assert(chars.subrange(i, e2).len() == e2 - i);
}

/// Tokenization totality: every character of the input from position `i`
/// on is accounted for exactly once — by the width of one produced token,
/// by the width of one invalid entry, or as one skipped whitespace
/// character. No character is silently dropped.
pub proof fn lemma_lex_accounts_for_input(chars: Seq<char>, i: int)
    requires
        0 <= i <= chars.len(),
    ensures
        ({
            let lx = sp_lex_from(chars, i);
            sp_width_sum(lx.0) + sp_width_sum(lx.1) + sp_ws_skipped(chars, i) == chars.len() - i
        }),
    decreases chars.len() - i,
{
    if i >= chars.len() {
        assert(seq![TokenModel::EOF].drop_first() =~= Seq::<TokenModel>::empty());
    } else if is_whitespace_char(chars[i]) {
        lemma_lex_accounts_for_input(chars, i + 1);
    } else {
        lemma_token_at_bounds(chars, i);
        lemma_token_at_width(chars, i);
        let tj = sp_token_at(chars, i);
        lemma_lex_accounts_for_input(chars, tj.1);
        let rest = sp_lex_from(chars, tj.1);
        if tj.0 is Invalid {
            assert((seq![tj.0] + rest.1).drop_first() =~= rest.1);
            assert(sp_width_sum(seq![tj.0] + rest.1) == sp_token_width(tj.0) + sp_width_sum(
                rest.1,
            ));
        } else {
            assert((seq![tj.0] + rest.0).drop_first() =~= rest.0);
            assert(sp_width_sum(seq![tj.0] + rest.0) == sp_token_width(tj.0) + sp_width_sum(
                rest.0,
            ));
        }
    }
}

proof fn lemma_token_at_bounds_or_end(chars: Seq<char>, i: int)
    requires
        0 <= i <= chars.len(),
    ensures
        i < chars.len() ==> i < sp_token_at(chars, i).1 <= chars.len(),
{
    if i < chars.len() {
        lemma_token_at_bounds(chars, i);
    }
}

} // verus!
