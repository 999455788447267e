//! The tokenizer: turns source text into tokens, skipping white space and
//! line comments.

use crate::text::{chars_of, is_digit};
use vstd::prelude::*;

verus! {

/// The kinds of token.
#[derive(Debug, PartialEq, Eq, Clone, Copy, Structural)]
pub enum TokenType {
    KEYWORD,
    ID,
    NUMBER,
    CHAR,
    STRING,
    EQUALS,
    DEQUALS,
    LT,
    LE,
    ST,
    SE,
    ADD,
    MINUS,
    ASTERISK,
    COLON,
    SEMICOLON,
    LBRACE,
    RBRACE,
    LPAREN,
    RPAREN,
    QUOTES,
    EX,
    UNEQ,
    DQUOTES,
    SLASH,
    COMMA,
    ARROW,
    AT,
    EOF,
}

/// Which stage ran out of input or met what it cannot read.
#[derive(Debug, PartialEq, Eq, Clone, Copy, Structural)]
pub enum Error {
    LexerErr,
    ParserErr,
}

/// A token: its kind and its text.
#[derive(Debug, PartialEq, Clone)]
pub struct Token {
    pub token_type: TokenType,
    pub value: String,
}

/// A token as a mathematical value.
pub struct Lexeme {
    pub kind: TokenType,
    pub text: Seq<char>,
}

impl View for Token {
    type V = Lexeme;

    open spec fn view(&self) -> Lexeme {
        Lexeme { kind: self.token_type, text: self.value@ }
    }
}

/// A list of tokens as mathematical values.
pub open spec fn lexemes(tokens: Seq<Token>) -> Seq<Lexeme> {
    Seq::new(tokens.len(), |i: int| tokens[i]@)
}

/// An optional token as a mathematical value.
pub open spec fn optional_lexeme(token: Option<Token>) -> Option<Lexeme> {
    match token {
        Some(t) => Some(t@),
        None => None,
    }
}

/// What `char::is_whitespace` answers for `c`.
pub uninterp spec fn whitespace(c: char) -> bool;

/// What `char::is_alphabetic` answers for `c`.
pub uninterp spec fn alphabetic(c: char) -> bool;

/// What `char::is_numeric` answers for `c`.
pub uninterp spec fn numeric(c: char) -> bool;

/// Whether `c` is a letter or a numeral in Unicode's sense.
pub open spec fn alphanumeric(c: char) -> bool {
    alphabetic(c) || numeric(c)
}

/// `char::is_whitespace` of the standard library, which tells whether a
/// character has the Unicode property White_Space. Its answer depends on the
/// character alone and is given the name `whitespace`.
pub assume_specification[ char::is_whitespace ](c: char) -> (b: bool)
    ensures
        b == whitespace(c),
;

/// `char::is_alphabetic` of the standard library, which tells whether a
/// character has the Unicode property Alphabetic. Its answer depends on the
/// character alone and is given the name `alphabetic`.
pub assume_specification[ char::is_alphabetic ](c: char) -> (b: bool)
    ensures
        b == alphabetic(c),
;

/// `char::is_alphanumeric` of the standard library, which holds of a
/// character exactly when `char::is_alphabetic` or `char::is_numeric` does.
/// The answer of `char::is_numeric`, which tells whether a character has one
/// of Unicode's numeric general categories, depends on the character alone
/// and is given the name `numeric`.
pub assume_specification[ char::is_alphanumeric ](c: char) -> (b: bool)
    ensures
        b == (alphabetic(c) || numeric(c)),
;

/// The runs of characters that the tokenizer reads as a whole.
#[derive(Debug, PartialEq, Eq, Clone, Copy, Structural)]
pub enum Run {
    /// Letters, digits and underscores.
    Word,
    /// ASCII digits.
    Digits,
    /// Everything up to a double quote.
    Quoted,
    /// Everything up to a line feed.
    Comment,
}

/// Whether `c` continues a run of kind `run`.
pub open spec fn continues(run: Run, c: char) -> bool {
    match run {
        Run::Word => alphanumeric(c) || c == '_',
        Run::Digits => is_digit(c),
        Run::Quoted => c != '"',
        Run::Comment => c != '\n',
    }
}

/// Where the run of kind `run` that starts at `i` ends: the first position
/// from `i` on whose character does not continue the run, or the end of `s`.
pub open spec fn run_end(s: Seq<char>, i: int, run: Run) -> int
    decreases s.len() - i,
{
    if 0 <= i < s.len() && continues(run, s[i]) {
        run_end(s, i + 1, run)
    } else {
        i
    }
}

/// A run ends at or after its start, and within the text.
pub proof fn lemma_run_end(s: Seq<char>, i: int, run: Run)
    requires
        0 <= i <= s.len(),
    ensures
        i <= run_end(s, i, run) <= s.len(),
        forall|j: int| i <= j < run_end(s, i, run) ==> continues(run, #[trigger] s[j]),
        run_end(s, i, run) < s.len() ==> !continues(run, s[run_end(s, i, run)]),
    decreases s.len() - i,
{
    if i < s.len() && continues(run, s[i]) {
        lemma_run_end(s, i + 1, run);
    }
}

/// The position after the delimiter that closes a run ending at `end`, or
/// `end` itself where the text ends first.
pub open spec fn past_delimiter(s: Seq<char>, end: int) -> int {
    if end < s.len() {
        end + 1
    } else {
        end
    }
}

/// Whether `text` is a reserved word.
pub open spec fn keyword(text: Seq<char>) -> bool {
    text == "i32"@ || text == "bool"@ || text == "str"@ || text == "ret"@ || text == "sub"@ || text
        == "if"@ || text == "else"@ || text == "elif"@ || text == "while"@ || text == "for"@
        || text == "in"@ || text == "call"@
}

/// The token that the word `text` is: a keyword, the number that a boolean
/// constant stands for, or an identifier.
pub open spec fn word_lexeme(text: Seq<char>) -> Lexeme {
    if keyword(text) {
        Lexeme { kind: TokenType::KEYWORD, text }
    } else if text == "true"@ {
        Lexeme { kind: TokenType::NUMBER, text: "1"@ }
    } else if text == "false"@ {
        Lexeme { kind: TokenType::NUMBER, text: "0"@ }
    } else {
        Lexeme { kind: TokenType::ID, text }
    }
}

/// A token of one or two characters whose first character was read: with
/// `second` at position `p` it is the token of kind `pair` and text
/// `pair_text`, and `second` is read too; otherwise it is the token of kind
/// `single` and text `single_text`.
pub open spec fn one_or_two(
    s: Seq<char>,
    p: int,
    second: char,
    pair: TokenType,
    pair_text: Seq<char>,
    single: TokenType,
    single_text: Seq<char>,
) -> (Lexeme, int) {
    if 0 <= p < s.len() && s[p] == second {
        (Lexeme { kind: pair, text: pair_text }, p + 1)
    } else {
        (Lexeme { kind: single, text: single_text }, p)
    }
}

/// The token after an `=` that ends before `p`.
pub open spec fn after_equals(s: Seq<char>, p: int) -> (Lexeme, int) {
    one_or_two(s, p, '=', TokenType::DEQUALS, "=="@, TokenType::EQUALS, "="@)
}

/// The token after a `>` that ends before `p`.
pub open spec fn after_greater(s: Seq<char>, p: int) -> (Lexeme, int) {
    one_or_two(s, p, '=', TokenType::LE, ">="@, TokenType::LT, ">"@)
}

/// The token after a `<` that ends before `p`.
pub open spec fn after_less(s: Seq<char>, p: int) -> (Lexeme, int) {
    one_or_two(s, p, '=', TokenType::SE, "<="@, TokenType::ST, "<"@)
}

/// The token after a `!` that ends before `p`.
pub open spec fn after_bang(s: Seq<char>, p: int) -> (Lexeme, int) {
    one_or_two(s, p, '=', TokenType::UNEQ, "!="@, TokenType::EX, "!"@)
}

/// The token after a `-` that ends before `p`.
pub open spec fn after_minus(s: Seq<char>, p: int) -> (Lexeme, int) {
    one_or_two(s, p, '>', TokenType::ARROW, "->"@, TokenType::MINUS, "-"@)
}

/// The string token whose opening quote ends before `p`: the text up to the
/// closing quote, which is read too, or up to the end of the source.
pub open spec fn quoted(s: Seq<char>, p: int) -> (Lexeme, int) {
    let end = run_end(s, p, Run::Quoted);
    (Lexeme { kind: TokenType::STRING, text: s.subrange(p, end) }, past_delimiter(s, end))
}

/// The word token that starts at `p`.
pub open spec fn word(s: Seq<char>, p: int) -> (Lexeme, int) {
    let end = run_end(s, p, Run::Word);
    (word_lexeme(s.subrange(p, end)), end)
}

/// The number token that starts at `p`.
pub open spec fn digits(s: Seq<char>, p: int) -> (Lexeme, int) {
    let end = run_end(s, p, Run::Digits);
    (Lexeme { kind: TokenType::NUMBER, text: s.subrange(p, end) }, end)
}

/// The token of kind `kind` and text `text`.
pub open spec fn lexeme(kind: TokenType, text: Seq<char>) -> Lexeme {
    Lexeme { kind, text }
}

/// The token that starts with the punctuation character at `p`, and where
/// it ends. At the end of the source, and for a character that starts no
/// token, it is the token of kind `EOF` with no text.
pub open spec fn symbol(s: Seq<char>, p: int) -> (Lexeme, int) {
    if !(0 <= p < s.len()) {
        (lexeme(TokenType::EOF, ""@), p)
    } else {
        let c = s[p];
        if c == '=' {
            after_equals(s, p + 1)
        } else if c == '>' {
            after_greater(s, p + 1)
        } else if c == '<' {
            after_less(s, p + 1)
        } else if c == ';' {
            (lexeme(TokenType::SEMICOLON, ";"@), p + 1)
        } else if c == ':' {
            (lexeme(TokenType::COLON, ":"@), p + 1)
        } else if c == '{' {
            (lexeme(TokenType::LBRACE, "{"@), p + 1)
        } else if c == '}' {
            (lexeme(TokenType::RBRACE, "}"@), p + 1)
        } else if c == '(' {
            (lexeme(TokenType::LPAREN, "("@), p + 1)
        } else if c == ')' {
            (lexeme(TokenType::RPAREN, ")"@), p + 1)
        } else if c == '\'' {
            (lexeme(TokenType::QUOTES, "'"@), p + 1)
        } else if c == '"' {
            quoted(s, p + 1)
        } else if c == '+' {
            (lexeme(TokenType::ADD, "+"@), p + 1)
        } else if c == '-' {
            after_minus(s, p + 1)
        } else if c == '*' {
            (lexeme(TokenType::ASTERISK, "*"@), p + 1)
        } else if c == ',' {
            (lexeme(TokenType::COMMA, ","@), p + 1)
        } else if c == '@' {
            (lexeme(TokenType::AT, "@"@), p + 1)
        } else if c == '!' {
            after_bang(s, p + 1)
        } else {
            (lexeme(TokenType::EOF, ""@), p + 1)
        }
    }
}

/// The next token from position `p` on, and where reading stops. White
/// space is skipped, and so is a comment from `//` to the end of its line.
/// A `/` before anything else is the slash token; a `/` that ends the
/// source is dropped. There is no token when only skipped text is left.
pub open spec fn next_lexeme(s: Seq<char>, p: int) -> (Option<Lexeme>, int)
    decreases s.len() - p,
{
    if !(0 <= p < s.len()) {
        (None, p)
    } else if whitespace(s[p]) {
        next_lexeme(s, p + 1)
    } else if s[p] == '/' {
        if p + 1 >= s.len() {
            (None, p + 1)
        } else if s[p + 1] == '/' {
            let end = run_end(s, p + 1, Run::Comment);
            proof {
                lemma_run_end(s, p + 1, Run::Comment);
            }
            next_lexeme(s, past_delimiter(s, end))
        } else {
            (Some(lexeme(TokenType::SLASH, "/"@)), p + 1)
        }
    } else if alphabetic(s[p]) || s[p] == '_' {
        let (token, end) = word(s, p);
        (Some(token), end)
    } else if is_digit(s[p]) {
        let (token, end) = digits(s, p);
        (Some(token), end)
    } else {
        let (token, end) = symbol(s, p);
        (Some(token), end)
    }
}

/// All the tokens from position `p` on, in order, and where reading stops.
pub open spec fn all_lexemes(s: Seq<char>, p: int) -> (Seq<Lexeme>, int)
    decreases s.len() - p,
{
    let (token, next) = next_lexeme(s, p);
    match token {
        None => (Seq::empty(), next),
        Some(t) => if p < next <= s.len() {
            let (rest, end) = all_lexemes(s, next);
            (seq![t] + rest, end)
        } else {
            (seq![t], next)
        },
    }
}

/// Reading a token moves forward and stays within the source.
pub proof fn lemma_next_lexeme(s: Seq<char>, p: int)
    requires
        0 <= p <= s.len(),
    ensures
        p <= next_lexeme(s, p).1 <= s.len(),
        next_lexeme(s, p).0 is Some ==> p < next_lexeme(s, p).1,
    decreases s.len() - p,
{
    if p < s.len() {
        if whitespace(s[p]) {
            lemma_next_lexeme(s, p + 1);
        } else if s[p] == '/' {
            if p + 1 < s.len() && s[p + 1] == '/' {
                lemma_run_end(s, p + 1, Run::Comment);
                lemma_next_lexeme(s, past_delimiter(s, run_end(s, p + 1, Run::Comment)));
            }
        } else if alphabetic(s[p]) || s[p] == '_' {
            lemma_run_end(s, p + 1, Run::Word);
        } else if is_digit(s[p]) {
            lemma_run_end(s, p + 1, Run::Digits);
        } else {
            lemma_run_end(s, p + 1, Run::Quoted);
        }
    }
}

/// The tokenizer over a source text.
pub struct LEXER {
    src: Vec<char>,
    pos: usize,
}

impl LEXER {
    /// The source text.
    pub closed spec fn source(&self) -> Seq<char> {
        self.src@
    }

    /// How many characters of the source were read.
    pub closed spec fn position(&self) -> int {
        self.pos as int
    }

    /// Whether the position lies within the source.
    pub open spec fn wf(&self) -> bool {
        0 <= self.position() <= self.source().len()
    }

    /// A tokenizer at the start of `src`.
    pub fn new(src: &str) -> (lexer: Self)
        ensures
            lexer.wf(),
            lexer.source() == src@,
            lexer.position() == 0,
    {
        Self { src: chars_of(src), pos: 0 }
    }

    /// Reads the run of kind `run` that starts at the position, and returns
    /// its text.
    fn collect_run(&mut self, run: Run) -> (text: String)
        requires
            old(self).wf(),
        ensures
            final(self).wf(),
            final(self).source() == old(self).source(),
            final(self).position() == run_end(old(self).source(), old(self).position(), run),
            text@ == old(self).source().subrange(old(self).position(), final(self).position()),
    {
        let mut text = String::new();
        let ghost s = self.src@;
        let ghost start = self.pos as int;
        assert(text@ =~= s.subrange(start, start));
        while self.pos < self.src.len() && in_run(run, self.src[self.pos])
            invariant
                self.wf(),
                self.src@ == s,
                0 <= start <= self.pos <= s.len(),
                text@ == s.subrange(start, self.pos as int),
                run_end(s, start, run) == run_end(s, self.pos as int, run),
            decreases s.len() - self.pos,
        {
            text.push(self.src[self.pos]);
            self.pos = self.pos + 1;
            assert(text@ =~= s.subrange(start, self.pos as int));
        }
        text
    }

    /// Reads the run of kind `run` that starts at the position, and drops it.
    fn skip_run(&mut self, run: Run)
        requires
            old(self).wf(),
        ensures
            final(self).wf(),
            final(self).source() == old(self).source(),
            final(self).position() == run_end(old(self).source(), old(self).position(), run),
    {
        while self.pos < self.src.len() && in_run(run, self.src[self.pos])
            invariant
                self.wf(),
                self.src@ == old(self).src@,
                run_end(old(self).src@, old(self).pos as int, run) == run_end(
                    self.src@,
                    self.pos as int,
                    run,
                ),
            decreases self.src@.len() - self.pos,
        {
            self.pos = self.pos + 1;
        }
    }

    /// Reads the closing delimiter of a run, if the source has not ended.
    fn skip_delimiter(&mut self)
        requires
            old(self).wf(),
        ensures
            final(self).wf(),
            final(self).source() == old(self).source(),
            final(self).position() == past_delimiter(old(self).source(), old(self).position()),
    {
        if self.pos < self.src.len() {
            self.pos = self.pos + 1;
        }
    }

    /// Reads the token of one or two characters whose first character was
    /// read: the two-character token if `second` follows, else the other.
    fn collect_pair(
        &mut self,
        second: char,
        pair: TokenType,
        pair_text: &str,
        single: TokenType,
        single_text: &str,
    ) -> (token: Token)
        requires
            old(self).wf(),
        ensures
            final(self).wf(),
            final(self).source() == old(self).source(),
            (token@, final(self).position()) == one_or_two(
                old(self).source(),
                old(self).position(),
                second,
                pair,
                pair_text@,
                single,
                single_text@,
            ),
    {
        if self.pos < self.src.len() && self.src[self.pos] == second {
            self.pos = self.pos + 1;
            Token { token_type: pair, value: String::from_str(pair_text) }
        } else {
            Token { token_type: single, value: String::from_str(single_text) }
        }
    }

    /// Reads a word and tells which token it is.
    pub fn collect_identifier_keyword(&mut self) -> (token: Token)
        requires
            old(self).wf(),
        ensures
            final(self).wf(),
            final(self).source() == old(self).source(),
            (token@, final(self).position()) == word(old(self).source(), old(self).position()),
    {
        let value = self.collect_run(Run::Word);
        if is_keyword(value.as_str()) {
            Token { token_type: TokenType::KEYWORD, value }
        } else if *value.as_str() == *"true" {
            Token { token_type: TokenType::NUMBER, value: String::from_str("1") }
        } else if *value.as_str() == *"false" {
            Token { token_type: TokenType::NUMBER, value: String::from_str("0") }
        } else {
            Token { token_type: TokenType::ID, value }
        }
    }

    /// Reads a run of digits as a number token.
    pub fn collect_number(&mut self) -> (token: Token)
        requires
            old(self).wf(),
        ensures
            final(self).wf(),
            final(self).source() == old(self).source(),
            (token@, final(self).position()) == digits(old(self).source(), old(self).position()),
    {
        let value = self.collect_run(Run::Digits);
        Token { token_type: TokenType::NUMBER, value }
    }

    /// Reads what follows a `-`: an arrow or a minus.
    pub fn collect_minus(&mut self) -> (token: Token)
        requires
            old(self).wf(),
        ensures
            final(self).wf(),
            final(self).source() == old(self).source(),
            (token@, final(self).position()) == after_minus(
                old(self).source(),
                old(self).position(),
            ),
    {
        self.collect_pair('>', TokenType::ARROW, "->", TokenType::MINUS, "-")
    }

    /// Reads what follows an opening quote: the text of a string token and
    /// its closing quote.
    pub fn collect_string(&mut self) -> (token: Token)
        requires
            old(self).wf(),
        ensures
            final(self).wf(),
            final(self).source() == old(self).source(),
            (token@, final(self).position()) == quoted(old(self).source(), old(self).position()),
    {
        let value = self.collect_run(Run::Quoted);
        self.skip_delimiter();
        Token { token_type: TokenType::STRING, value }
    }

    /// Reads what follows an `=`: a comparison or an assignment sign.
    pub fn collect_eq(&mut self) -> (token: Token)
        requires
            old(self).wf(),
        ensures
            final(self).wf(),
            final(self).source() == old(self).source(),
            (token@, final(self).position()) == after_equals(
                old(self).source(),
                old(self).position(),
            ),
    {
        self.collect_pair('=', TokenType::DEQUALS, "==", TokenType::EQUALS, "=")
    }

    /// Reads what follows a `>`.
    pub fn collect_lt(&mut self) -> (token: Token)
        requires
            old(self).wf(),
        ensures
            final(self).wf(),
            final(self).source() == old(self).source(),
            (token@, final(self).position()) == after_greater(
                old(self).source(),
                old(self).position(),
            ),
    {
        self.collect_pair('=', TokenType::LE, ">=", TokenType::LT, ">")
    }

    /// Reads what follows a `<`.
    pub fn collect_st(&mut self) -> (token: Token)
        requires
            old(self).wf(),
        ensures
            final(self).wf(),
            final(self).source() == old(self).source(),
            (token@, final(self).position()) == after_less(
                old(self).source(),
                old(self).position(),
            ),
    {
        self.collect_pair('=', TokenType::SE, "<=", TokenType::ST, "<")
    }

    /// Reads what follows a `!`.
    pub fn collect_ex(&mut self) -> (token: Token)
        requires
            old(self).wf(),
        ensures
            final(self).wf(),
            final(self).source() == old(self).source(),
            (token@, final(self).position()) == after_bang(
                old(self).source(),
                old(self).position(),
            ),
    {
        self.collect_pair('=', TokenType::UNEQ, "!=", TokenType::EX, "!")
    }

    /// Reads the token that starts with a punctuation character.
    pub fn collect_symbol(&mut self) -> (token: Token)
        requires
            old(self).wf(),
        ensures
            final(self).wf(),
            final(self).source() == old(self).source(),
            (token@, final(self).position()) == symbol(old(self).source(), old(self).position()),
    {
        if self.pos >= self.src.len() {
            return simple(TokenType::EOF, "");
        }
        let c = self.src[self.pos];
        self.pos = self.pos + 1;
        if c == '=' {
            self.collect_eq()
        } else if c == '>' {
            self.collect_lt()
        } else if c == '<' {
            self.collect_st()
        } else if c == ';' {
            simple(TokenType::SEMICOLON, ";")
        } else if c == ':' {
            simple(TokenType::COLON, ":")
        } else if c == '{' {
            simple(TokenType::LBRACE, "{")
        } else if c == '}' {
            simple(TokenType::RBRACE, "}")
        } else if c == '(' {
            simple(TokenType::LPAREN, "(")
        } else if c == ')' {
            simple(TokenType::RPAREN, ")")
        } else if c == '\'' {
            simple(TokenType::QUOTES, "'")
        } else if c == '"' {
            self.collect_string()
        } else if c == '+' {
            simple(TokenType::ADD, "+")
        } else if c == '-' {
            self.collect_minus()
        } else if c == '*' {
            simple(TokenType::ASTERISK, "*")
        } else if c == ',' {
            simple(TokenType::COMMA, ",")
        } else if c == '@' {
            simple(TokenType::AT, "@")
        } else if c == '!' {
            self.collect_ex()
        } else {
            simple(TokenType::EOF, "")
        }
    }

    /// Reads the next token, if any is left.
    pub fn next_token(&mut self) -> (token: Option<Token>)
        requires
            old(self).wf(),
        ensures
            final(self).wf(),
            final(self).source() == old(self).source(),
            (optional_lexeme(token), final(self).position()) == next_lexeme(
                old(self).source(),
                old(self).position(),
            ),
    {
        let ghost s = self.src@;
        let ghost start = self.pos as int;
        while self.pos < self.src.len()
            invariant
                self.wf(),
                self.src@ == s,
                s == old(self).source(),
                start == old(self).position(),
                next_lexeme(s, start) == next_lexeme(s, self.pos as int),
            decreases s.len() - self.pos,
        {
            let c = self.src[self.pos];
            if c.is_whitespace() {
                self.pos = self.pos + 1;
            } else if c == '/' {
                self.pos = self.pos + 1;
                if self.pos < self.src.len() {
                    if self.src[self.pos] == '/' {
                        proof {
                            lemma_run_end(s, self.pos as int, Run::Comment);
                        }
                        self.skip_run(Run::Comment);
                        self.skip_delimiter();
                    } else {
                        return Some(simple(TokenType::SLASH, "/"));
                    }
                }
            } else if c.is_alphabetic() || c == '_' {
                return Some(self.collect_identifier_keyword());
            } else if c >= '0' && c <= '9' {
                return Some(self.collect_number());
            } else {
                return Some(self.collect_symbol());
            }
        }
        None
    }
}

/// Whether `c` continues a run of kind `run`.
fn in_run(run: Run, c: char) -> (b: bool)
    ensures
        b == continues(run, c),
{
    match run {
        Run::Word => c.is_alphanumeric() || c == '_',
        Run::Digits => c >= '0' && c <= '9',
        Run::Quoted => c != '"',
        Run::Comment => c != '\n',
    }
}

/// Whether `text` is a reserved word.
fn is_keyword(text: &str) -> (b: bool)
    ensures
        b == keyword(text@),
{
    *text == *"i32" || *text == *"bool" || *text == *"str" || *text == *"ret" || *text == *"sub"
        || *text == *"if" || *text == *"else" || *text == *"elif" || *text == *"while" || *text
        == *"for" || *text == *"in" || *text == *"call"
}

/// The token of kind `kind` and text `text`.
fn simple(kind: TokenType, text: &str) -> (token: Token)
    ensures
        token@ == lexeme(kind, text@),
{
    Token { token_type: kind, value: String::from_str(text) }
}

/// Reads all the tokens that are left.
pub fn tokenization(lexer: &mut LEXER) -> (r: Result<Vec<Token>, Error>)
    requires
        old(lexer).wf(),
    ensures
        final(lexer).wf(),
        final(lexer).source() == old(lexer).source(),
        r is Ok,
        (lexemes(r->Ok_0@), final(lexer).position()) == all_lexemes(
            old(lexer).source(),
            old(lexer).position(),
        ),
{
    let mut tokens: Vec<Token> = Vec::new();
    let ghost s = lexer.source();
    let ghost start = lexer.position();
    assert(lexemes(tokens@) + all_lexemes(s, start).0 =~= all_lexemes(s, start).0);
    loop
        invariant_except_break
            all_lexemes(s, start) == (
                lexemes(tokens@) + all_lexemes(s, lexer.position()).0,
                all_lexemes(s, lexer.position()).1,
            ),
        invariant
            lexer.wf(),
            lexer.source() == s,
        ensures
            all_lexemes(s, start) == (lexemes(tokens@), lexer.position()),
        decreases lexer.source().len() - lexer.position(),
    {
        let ghost before = lexer.position();
        let ghost read = lexemes(tokens@);
        proof {
            lemma_next_lexeme(s, before);
        }
        match lexer.next_token() {
            Some(token) => {
                tokens.push(token);
                assert(lexemes(tokens@) =~= read + seq![token@]);
                assert(lexemes(tokens@) + all_lexemes(s, lexer.position()).0 =~= read
                    + all_lexemes(s, before).0);
            },
            None => {
                assert(read + all_lexemes(s, before).0 =~= read);
                break ;
            },
        }
    }
    Ok(tokens)
}

} // verus!
