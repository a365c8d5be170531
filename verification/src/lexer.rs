use vstd::prelude::*;
use crate::strutil::byte_char;
use crate::strutil::string_from_bytes;
use crate::strutil::trim_spec;
use crate::strutil::trim_string;
use crate::token::Token;
use crate::token::TokenType;

verus! {

// ---------------------------------------------------------------------------
// Character classes
// ---------------------------------------------------------------------------
/// Whether a byte is whitespace between tokens.
pub open spec fn is_ws_b(b: u8) -> bool {
    b == 32 || b == 9 || b == 10 || b == 13
}

/// Whether a byte is an ASCII letter.
pub open spec fn is_letter_b(b: u8) -> bool {
    (97 <= b && b <= 122) || (65 <= b && b <= 90)
}

/// Whether a byte is a decimal digit.
pub open spec fn is_digit_b(b: u8) -> bool {
    48 <= b && b <= 57
}

/// Whether a byte is a hexadecimal letter, or the radix marker `x`.
pub open spec fn is_hex_b(b: u8) -> bool {
    (97 <= b && b <= 102) || (65 <= b && b <= 70) || b == 120
}

/// Whether a byte may stand inside a symbol: letters, digits and a fixed
/// punctuation set.
pub open spec fn is_sym_b(b: u8) -> bool {
    is_letter_b(b) || is_digit_b(b) || b == 45 || b == 43 || b == 95 || b == 36 || b == 42 || b
        == 47 || b == 92 || b == 61 || b == 60 || b == 62 || b == 33 || b == 38 || b == 37 || b
        == 46
}

/// Whether a byte is whitespace.
pub fn is_whitespace(ch: u8) -> (r: bool)
    ensures
        r == is_ws_b(ch),
{
    ch == 32 || ch == 9 || ch == 10 || ch == 13
}

/// Whether a byte is an ASCII letter.
pub fn is_letter(ch: u8) -> (r: bool)
    ensures
        r == is_letter_b(ch),
{
    (97 <= ch && ch <= 122) || (65 <= ch && ch <= 90)
}

/// Whether a byte is a decimal digit.
pub fn is_digit(ch: u8) -> (r: bool)
    ensures
        r == is_digit_b(ch),
{
    48 <= ch && ch <= 57
}

/// Whether a byte is a hexadecimal letter or the radix marker `x`.
pub fn is_hex_digit(ch: u8) -> (r: bool)
    ensures
        r == is_hex_b(ch),
{
    (97 <= ch && ch <= 102) || (65 <= ch && ch <= 70) || ch == 120
}

/// Whether a byte may stand inside a symbol.
pub fn is_symbol(ch: u8) -> (r: bool)
    ensures
        r == is_sym_b(ch),
{
    is_letter(ch) || is_digit(ch) || ch == 45 || ch == 43 || ch == 95 || ch == 36 || ch == 42 || ch
        == 47 || ch == 92 || ch == 61 || ch == 60 || ch == 62 || ch == 33 || ch == 38 || ch == 37
        || ch == 46
}

// ---------------------------------------------------------------------------
// Maximal runs
// ---------------------------------------------------------------------------
/// The first position at or after `i` that does not hold whitespace.
pub open spec fn ws_end(s: Seq<u8>, i: int) -> int
    decreases s.len() - i,
    when 0 <= i <= s.len()
{
    if i < s.len() && is_ws_b(s[i]) {
        ws_end(s, i + 1)
    } else {
        i
    }
}

/// The first position at or after `i` that does not hold a symbol byte.
pub open spec fn sym_end(s: Seq<u8>, i: int) -> int
    decreases s.len() - i,
    when 0 <= i <= s.len()
{
    if i < s.len() && is_sym_b(s[i]) {
        sym_end(s, i + 1)
    } else {
        i
    }
}

/// The first position at or after `i` that does not hold a digit, hex letter
/// or radix marker.
pub open spec fn num_end(s: Seq<u8>, i: int) -> int
    decreases s.len() - i,
    when 0 <= i <= s.len()
{
    if i < s.len() && (is_digit_b(s[i]) || is_hex_b(s[i])) {
        num_end(s, i + 1)
    } else {
        i
    }
}

/// The first position at or after `i` holding a closing quote or the end
/// marker byte, or the end of input.
pub open spec fn str_body_end(s: Seq<u8>, i: int) -> int
    decreases s.len() - i,
    when 0 <= i <= s.len()
{
    if i < s.len() && s[i] != 34 && s[i] != 0 {
        str_body_end(s, i + 1)
    } else {
        i
    }
}

/// The first position at or after `i` holding a newline or the end marker
/// byte, or the end of input.
pub open spec fn comment_body_end(s: Seq<u8>, i: int) -> int
    decreases s.len() - i,
    when 0 <= i <= s.len()
{
    if i < s.len() && s[i] != 10 && s[i] != 0 {
        comment_body_end(s, i + 1)
    } else {
        i
    }
}

proof fn lemma_ws_end_is(s: Seq<u8>, i: int, k: int)
    requires
        0 <= i <= k <= s.len(),
        forall|m: int| i <= m < k ==> is_ws_b(#[trigger] s[m]),
        k == s.len() || !is_ws_b(s[k]),
    ensures
        ws_end(s, i) == k,
    decreases k - i,
{
    if i < k {
        lemma_ws_end_is(s, i + 1, k);
    }
}

proof fn lemma_sym_end_is(s: Seq<u8>, i: int, k: int)
    requires
        0 <= i <= k <= s.len(),
        forall|m: int| i <= m < k ==> is_sym_b(#[trigger] s[m]),
        k == s.len() || !is_sym_b(s[k]),
    ensures
        sym_end(s, i) == k,
    decreases k - i,
{
    if i < k {
        lemma_sym_end_is(s, i + 1, k);
    }
}

proof fn lemma_num_end_is(s: Seq<u8>, i: int, k: int)
    requires
        0 <= i <= k <= s.len(),
        forall|m: int| i <= m < k ==> is_digit_b(#[trigger] s[m]) || is_hex_b(s[m]),
        k == s.len() || !(is_digit_b(s[k]) || is_hex_b(s[k])),
    ensures
        num_end(s, i) == k,
    decreases k - i,
{
    if i < k {
        lemma_num_end_is(s, i + 1, k);
    }
}

proof fn lemma_str_body_end_is(s: Seq<u8>, i: int, k: int)
    requires
        0 <= i <= k <= s.len(),
        forall|m: int| i <= m < k ==> #[trigger] s[m] != 34 && s[m] != 0,
        k == s.len() || s[k] == 34 || s[k] == 0,
    ensures
        str_body_end(s, i) == k,
    decreases k - i,
{
    if i < k {
        lemma_str_body_end_is(s, i + 1, k);
    }
}

proof fn lemma_comment_body_end_is(s: Seq<u8>, i: int, k: int)
    requires
        0 <= i <= k <= s.len(),
        forall|m: int| i <= m < k ==> #[trigger] s[m] != 10 && s[m] != 0,
        k == s.len() || s[k] == 10 || s[k] == 0,
    ensures
        comment_body_end(s, i) == k,
    decreases k - i,
{
    if i < k {
        lemma_comment_body_end_is(s, i + 1, k);
    }
}

/// The end positions of the runs never run backwards or past the end.
pub proof fn lemma_ws_end_bounds(s: Seq<u8>, i: int)
    requires
        0 <= i <= s.len(),
    ensures
        i <= ws_end(s, i) <= s.len(),
    decreases s.len() - i,
{
    if i < s.len() && is_ws_b(s[i]) {
        lemma_ws_end_bounds(s, i + 1);
    }
}

pub proof fn lemma_sym_end_bounds(s: Seq<u8>, i: int)
    requires
        0 <= i <= s.len(),
    ensures
        i <= sym_end(s, i) <= s.len(),
    decreases s.len() - i,
{
    if i < s.len() && is_sym_b(s[i]) {
        lemma_sym_end_bounds(s, i + 1);
    }
}

pub proof fn lemma_num_end_bounds(s: Seq<u8>, i: int)
    requires
        0 <= i <= s.len(),
    ensures
        i <= num_end(s, i) <= s.len(),
    decreases s.len() - i,
{
    if i < s.len() && (is_digit_b(s[i]) || is_hex_b(s[i])) {
        lemma_num_end_bounds(s, i + 1);
    }
}

pub proof fn lemma_str_body_end_bounds(s: Seq<u8>, i: int)
    requires
        0 <= i <= s.len(),
    ensures
        i <= str_body_end(s, i) <= s.len(),
    decreases s.len() - i,
{
    if i < s.len() && s[i] != 34 && s[i] != 0 {
        lemma_str_body_end_bounds(s, i + 1);
    }
}

pub proof fn lemma_comment_body_end_bounds(s: Seq<u8>, i: int)
    requires
        0 <= i <= s.len(),
    ensures
        i <= comment_body_end(s, i) <= s.len(),
    decreases s.len() - i,
{
    if i < s.len() && s[i] != 10 && s[i] != 0 {
        lemma_comment_body_end_bounds(s, i + 1);
    }
}

// ---------------------------------------------------------------------------
// One token
// ---------------------------------------------------------------------------
/// The characters the given byte range stands for.
pub open spec fn bytes_chars(s: Seq<u8>) -> Seq<char> {
    s.map_values(|b: u8| byte_char(b))
}

/// The kind of the token that starts at position `j`, which must hold a
/// byte that is neither whitespace nor the end marker.
pub open spec fn tok_type_at(s: Seq<u8>, j: int) -> TokenType {
    let b = s[j];
    if b == 40 {
        TokenType::LPAREN
    } else if b == 41 {
        TokenType::RPAREN
    } else if b == 44 {
        TokenType::COMMA
    } else if b == 39 {
        TokenType::QUOTE
    } else if b == 34 {
        TokenType::STRING
    } else if b == 59 {
        TokenType::COMMENT
    } else if is_digit_b(b) {
        TokenType::NUMBER
    } else if is_sym_b(b) {
        TokenType::SYMBOL
    } else {
        TokenType::ILLEGAL
    }
}

/// The position just after the token that starts at position `j`.
pub open spec fn tok_end(s: Seq<u8>, j: int) -> int {
    let b = s[j];
    if b == 34 {
        let e = str_body_end(s, j + 1);
        if e < s.len() && s[e] == 34 {
            e + 1
        } else {
            e
        }
    } else if b == 59 {
        comment_body_end(s, j + 1)
    } else if is_digit_b(b) {
        num_end(s, j)
    } else if b == 40 || b == 41 || b == 44 || b == 39 {
        j + 1
    } else if is_sym_b(b) {
        sym_end(s, j)
    } else {
        j + 1
    }
}

/// One token of the stream, as the lexer's specification sees it: its kind
/// and its literal text.
pub struct TokView {
    pub ttype: TokenType,
    pub lit: Seq<char>,
}

/// The literal text of the token that starts at position `j`.
pub open spec fn tok_lit_at(s: Seq<u8>, j: int) -> Seq<char> {
    let b = s[j];
    if b == 34 {
        bytes_chars(s.subrange(j + 1, str_body_end(s, j + 1)))
    } else if b == 59 {
        trim_spec(bytes_chars(s.subrange(j + 1, comment_body_end(s, j + 1))))
    } else if is_digit_b(b) {
        bytes_chars(s.subrange(j, num_end(s, j)))
    } else if b == 40 || b == 41 || b == 44 || b == 39 {
        Seq::<char>::empty()
    } else if is_sym_b(b) {
        bytes_chars(s.subrange(j, sym_end(s, j)))
    } else {
        Seq::<char>::empty()
    }
}

// ---------------------------------------------------------------------------
// The token stream
// ---------------------------------------------------------------------------
/// The sequence of tokens the bytes lex to, starting at position `i`: at
/// each step, whitespace is skipped, then one token is read; the stream ends
/// at the end of input or at an end marker byte.
pub open spec fn token_stream(s: Seq<u8>, i: int) -> Seq<TokView>
    decreases s.len() - i,
    when 0 <= i <= s.len()
    via token_stream_dec
{
    let j = ws_end(s, i);
    if j >= s.len() || s[j] == 0 {
        Seq::<TokView>::empty()
    } else {
        seq![TokView { ttype: tok_type_at(s, j), lit: tok_lit_at(s, j) }] + token_stream(
            s,
            tok_end(s, j),
        )
    }
}

/// The position just after a token lies strictly beyond the token's start
/// and within the input.
pub proof fn lemma_tok_end_bounds(s: Seq<u8>, j: int)
    requires
        0 <= j < s.len(),
    ensures
        j < tok_end(s, j) <= s.len(),
{
    let b = s[j];
    if b == 34 {
        lemma_str_body_end_bounds(s, j + 1);
    } else if b == 59 {
        lemma_comment_body_end_bounds(s, j + 1);
    } else if is_digit_b(b) {
        lemma_num_end_bounds(s, j + 1);
        assert(num_end(s, j) == num_end(s, j + 1));
    } else if b == 40 || b == 41 || b == 44 || b == 39 {
    } else if is_sym_b(b) {
        lemma_sym_end_bounds(s, j + 1);
        assert(sym_end(s, j) == sym_end(s, j + 1));
    }
}

#[via_fn]
proof fn token_stream_dec(s: Seq<u8>, i: int) {
    lemma_ws_end_bounds(s, i);
    let j = ws_end(s, i);
    if !(j >= s.len() || s[j] == 0) {
        lemma_tok_end_bounds(s, j);
    }
}

// ---------------------------------------------------------------------------
// The lexer
// ---------------------------------------------------------------------------
/// A cursor over the bytes of one source text.
pub struct ByteIter {
    pub bytes: Vec<u8>,
    pub pos: usize,
}

impl ByteIter {
    /// A cursor at the start of the given bytes.
    pub fn new(bytes: Vec<u8>) -> (r: ByteIter)
        ensures
            r@ == bytes@,
    {
        ByteIter { bytes, pos: 0 }
    }

    /// Hands the bytes over.
    pub fn into_bytes(self) -> (r: Vec<u8>)
        ensures
            r@ == self@,
    {
        self.bytes
    }
}

impl View for ByteIter {
    type V = Seq<u8>;

    open spec fn view(&self) -> Seq<u8> {
        self.bytes@
    }
}

/// Converts a source text into tokens, one call at a time.  Carriage
/// returns are dropped when the lexer is built, so the token stream is that
/// of the remaining bytes.
pub struct Lexer {
    pub bytes: Vec<u8>,
    pub pos: usize,
    pub line: u32,
    pub col: u32,
    pub name: String,
}

/// The number of line breaks before position `i`.
pub open spec fn nl_count(s: Seq<u8>, i: int) -> int
    decreases i,
    when 0 <= i <= s.len()
{
    if i <= 0 {
        0
    } else {
        nl_count(s, i - 1) + (if s[i - 1] == 10 {
            1int
        } else {
            0int
        })
    }
}

/// The position right after the last line break before `i`: the start of
/// the line position `i` lies on.
pub open spec fn line_start(s: Seq<u8>, i: int) -> int
    decreases i,
    when 0 <= i <= s.len()
{
    if i <= 0 {
        0
    } else if s[i - 1] == 10 {
        i
    } else {
        line_start(s, i - 1)
    }
}

/// Saturation into the counter range.
pub open spec fn sat32(x: int) -> int {
    if x > 0xffff_ffff {
        0xffff_ffff
    } else {
        x
    }
}

/// The one-based line number of position `i`, saturated.
pub open spec fn line_at(s: Seq<u8>, i: int) -> int {
    sat32(1 + nl_count(s, i))
}

/// The one-based column of position `i` within its line, saturated.
pub open spec fn col_at(s: Seq<u8>, i: int) -> int {
    sat32(i - line_start(s, i) + 1)
}

/// A line never starts after the position that lies on it.
proof fn lemma_line_start_le(s: Seq<u8>, i: int)
    requires
        0 <= i <= s.len(),
    ensures
        0 <= line_start(s, i) <= i,
    decreases i,
{
    if i > 0 && s[i - 1] != 10 {
        lemma_line_start_le(s, i - 1);
    }
}

/// Saturating increment, for the line and column counters.
fn bump(x: u32) -> (r: u32)
    ensures
        r as int == sat32(x as int + 1),
{
    if x < 0xffff_ffff {
        x + 1
    } else {
        x
    }
}

impl Lexer {
    /// The cursor stays within the input, and the line and column counters
    /// are exactly the position's one-based line and column.
    pub open spec fn wf(&self) -> bool {
        &&& self.pos <= self.bytes@.len()
        &&& self.line as int == line_at(self.bytes@, self.pos as int)
        &&& self.col as int == col_at(self.bytes@, self.pos as int)
    }

    /// Moves the cursor one byte forward, keeping line and column exact.
    fn advance_one(&mut self)
        requires
            old(self).wf(),
            old(self).pos < old(self).bytes@.len(),
        ensures
            final(self).wf(),
            final(self).bytes@ == old(self).bytes@,
            final(self).name@ == old(self).name@,
            final(self).pos == old(self).pos + 1,
    {
        let ghost s = self.bytes@;
        let ghost i = self.pos as int;
        let n = self.bytes.len();
        let b = self.bytes[self.pos];
        if b == 10 {
            self.line = bump(self.line);
            self.col = 1;
        } else {
            self.col = bump(self.col);
        }
        self.pos = self.pos + 1;
        proof {
            assert(nl_count(s, i + 1) == nl_count(s, i) + (if s[i] == 10 {
                1int
            } else {
                0int
            }));
            assert(line_start(s, i + 1) == (if s[i] == 10 {
                i + 1
            } else {
                line_start(s, i)
            }));
            if b == 10 {
                assert(self.line as int == sat32(1 + nl_count(s, i + 1)));
                assert(self.col as int == sat32((i + 1) - line_start(s, i + 1) + 1));
            } else {
                lemma_line_start_le(s, i);
                assert(self.col as int == sat32((i + 1) - line_start(s, i + 1) + 1));
            }
        }
    }

    /// Moves the cursor forward to the given position, keeping line and
    /// column exact.
    fn advance_to(&mut self, to: usize)
        requires
            old(self).wf(),
            old(self).pos <= to <= old(self).bytes@.len(),
        ensures
            final(self).wf(),
            final(self).bytes@ == old(self).bytes@,
            final(self).name@ == old(self).name@,
            final(self).pos == to,
    {
        while self.pos < to
            invariant
                self.wf(),
                self.pos <= to <= self.bytes@.len(),
                self.bytes@ == old(self).bytes@,
                self.name@ == old(self).name@,
            decreases to - self.pos,
        {
            self.advance_one();
        }
    }

    /// A lexer over the given source, named for diagnostics.  Carriage
    /// return bytes are dropped up front.
    pub fn new(src: ByteIter, name: &str) -> (r: Lexer)
        ensures
            r.wf(),
            r.pos == 0,
            r.bytes@ == src@.filter(|b: u8| b != 13),
            r.name@ == name@,
    {
        let raw = src.into_bytes();
        let mut filtered: Vec<u8> = Vec::new();
        let mut i: usize = 0;
        while i < raw.len()
            invariant
                i <= raw@.len(),
                filtered@ == raw@.take(i as int).filter(|b: u8| b != 13),
            decreases raw@.len() - i,
        {
            let ghost pre = raw@.take(i as int);
            let b = raw[i];
            if b != 13 {
                filtered.push(b);
            }
            i = i + 1;
            proof {
                reveal_with_fuel(Seq::<_>::filter, 2);
                let pred = (|b: u8| b != 13);
                assert(raw@.take(i as int) =~= pre + seq![b]);
                Seq::<u8>::filter_distributes_over_add(pre, seq![b], pred);
                assert(seq![b].drop_last() =~= Seq::<u8>::empty());
                assert(Seq::<u8>::empty().filter(pred) =~= Seq::<u8>::empty());
                if b != 13 {
                    assert(seq![b].filter(pred) =~= seq![b]);
                } else {
                    assert(seq![b].filter(pred) =~= Seq::<u8>::empty());
                }
            }
        }
        proof {
            assert(raw@.take(raw@.len() as int) =~= raw@);
        }
        Lexer { bytes: filtered, pos: 0, line: 1, col: 1, name: name.to_owned() }
    }

    /// Reads the next token, or nothing at the end of the input.  The token's
    /// kind and literal text are exactly those of the token that starts at
    /// the first non-whitespace position; the cursor moves past it.  Line and
    /// column are diagnostic counters and carry no contract.
    pub fn next_token(&mut self) -> (r: Option<Token>)
        requires
            old(self).wf(),
        ensures
            final(self).wf(),
            final(self).bytes@ == old(self).bytes@,
            final(self).name@ == old(self).name@,
            ({
                let s = old(self).bytes@;
                let j = ws_end(s, old(self).pos as int);
                match r {
                    Option::None => final(self).pos == j && (j == s.len() || s[j] == 0),
                    Option::Some(tok) => {
                        &&& j < s.len() && s[j] != 0
                        &&& tok.ttype == tok_type_at(s, j)
                        &&& tok.literal@ == tok_lit_at(s, j)
                        &&& tok.file@ == old(self).name@
                        &&& tok.line as int == line_at(s, j)
                        &&& tok.col as int == col_at(s, j)
                        &&& final(self).pos == tok_end(s, j)
                        &&& old(self).pos < final(self).pos
                    },
                }
            }),
    {
        let ghost s = self.bytes@;
        let ghost p0 = self.pos as int;
        while self.pos < self.bytes.len() && is_whitespace(self.bytes[self.pos])
            invariant
                self.wf(),
                self.bytes@ == s,
                self.name@ == old(self).name@,
                p0 <= self.pos,
                forall|m: int| p0 <= m < self.pos ==> is_ws_b(#[trigger] s[m]),
            decreases s.len() - self.pos,
        {
            self.advance_one();
        }
        proof {
            lemma_ws_end_is(s, p0, self.pos as int);
        }
        let j = self.pos;
        if j >= self.bytes.len() || self.bytes[j] == 0 {
            return Option::None;
        }
        let b = self.bytes[j];
        let line = self.line;
        let col = self.col;
        if b == 40 {
            self.advance_to(j + 1);
            Option::Some(Token::simple(TokenType::LPAREN, line, col, self.name.as_str()))
        } else if b == 41 {
            self.advance_to(j + 1);
            Option::Some(Token::simple(TokenType::RPAREN, line, col, self.name.as_str()))
        } else if b == 44 {
            self.advance_to(j + 1);
            Option::Some(Token::simple(TokenType::COMMA, line, col, self.name.as_str()))
        } else if b == 39 {
            self.advance_to(j + 1);
            Option::Some(Token::simple(TokenType::QUOTE, line, col, self.name.as_str()))
        } else if b == 34 {
            let mut e: usize = j + 1;
            while e < self.bytes.len() && self.bytes[e] != 34 && self.bytes[e] != 0
                invariant
                    self.bytes@ == s,
                    j + 1 <= e <= s.len(),
                    forall|m: int| j + 1 <= m < e ==> #[trigger] s[m] != 34 && s[m] != 0,
                decreases s.len() - e,
            {
                e = e + 1;
            }
            proof {
                lemma_str_body_end_is(s, j + 1 as int, e as int);
            }
            let lit = self.range_string(j + 1, e);
            let stop = if e < self.bytes.len() && self.bytes[e] == 34 {
                e + 1
            } else {
                e
            };
            self.advance_to(stop);
            Option::Some(Token::with_literal(TokenType::STRING, lit, line, col, self.name.as_str()))
        } else if b == 59 {
            let mut e: usize = j + 1;
            while e < self.bytes.len() && self.bytes[e] != 10 && self.bytes[e] != 0
                invariant
                    self.bytes@ == s,
                    j + 1 <= e <= s.len(),
                    forall|m: int| j + 1 <= m < e ==> #[trigger] s[m] != 10 && s[m] != 0,
                decreases s.len() - e,
            {
                e = e + 1;
            }
            proof {
                lemma_comment_body_end_is(s, j + 1 as int, e as int);
            }
            let raw = self.range_string(j + 1, e);
            let lit = trim_string(&raw);
            self.advance_to(e);
            Option::Some(
                Token::with_literal(TokenType::COMMENT, lit, line, col, self.name.as_str()),
            )
        } else if is_digit(b) {
            let mut e: usize = j;
            while e < self.bytes.len() && (is_digit(self.bytes[e]) || is_hex_digit(self.bytes[e]))
                invariant
                    self.bytes@ == s,
                    j <= e <= s.len(),
                    forall|m: int| j <= m < e ==> is_digit_b(#[trigger] s[m]) || is_hex_b(s[m]),
                decreases s.len() - e,
            {
                e = e + 1;
            }
            proof {
                lemma_num_end_is(s, j as int, e as int);
            }
            let lit = self.range_string(j, e);
            self.advance_to(e);
            Option::Some(Token::with_literal(TokenType::NUMBER, lit, line, col, self.name.as_str()))
        } else if is_symbol(b) {
            let mut e: usize = j;
            while e < self.bytes.len() && is_symbol(self.bytes[e])
                invariant
                    self.bytes@ == s,
                    j <= e <= s.len(),
                    forall|m: int| j <= m < e ==> is_sym_b(#[trigger] s[m]),
                decreases s.len() - e,
            {
                e = e + 1;
            }
            proof {
                lemma_sym_end_is(s, j as int, e as int);
            }
            let lit = self.range_string(j, e);
            self.advance_to(e);
            Option::Some(Token::with_literal(TokenType::SYMBOL, lit, line, col, self.name.as_str()))
        } else {
            self.advance_to(j + 1);
            Option::Some(Token::simple(TokenType::ILLEGAL, line, col, self.name.as_str()))
        }
    }

    /// The characters the given byte range of the input stands for.
    fn range_string(&self, from: usize, to: usize) -> (r: String)
        requires
            from <= to <= self.bytes@.len(),
        ensures
            r@ == bytes_chars(self.bytes@.subrange(from as int, to as int)),
    {
        let mut buf: Vec<u8> = Vec::new();
        let mut k: usize = from;
        while k < to
            invariant
                from <= k <= to <= self.bytes@.len(),
                buf@ =~= self.bytes@.subrange(from as int, k as int),
            decreases to - k,
        {
            buf.push(self.bytes[k]);
            k = k + 1;
            proof {
                assert(buf@ =~= self.bytes@.subrange(from as int, k as int));
            }
        }
        let r = string_from_bytes(&buf);
        proof {
            assert(r@ =~= bytes_chars(buf@));
        }
        r
    }

    /// Reads the whole remaining input as tokens.
    pub fn lex_all(&mut self) -> (r: Vec<Token>)
        requires
            old(self).wf(),
        ensures
            final(self).wf(),
            ({
                let ts = token_stream(old(self).bytes@, old(self).pos as int);
                &&& r@.len() == ts.len()
                &&& forall|i: int|
                    0 <= i < ts.len() ==> (#[trigger] r@[i]).ttype == ts[i].ttype && r@[i].literal@
                        == ts[i].lit
            }),
    {
        let ghost s = self.bytes@;
        let ghost p0 = self.pos as int;
        let mut out: Vec<Token> = Vec::new();
        loop
            invariant
                self.wf(),
                self.bytes@ == s,
                0 <= p0 <= s.len(),
                ({
                    let ts = token_stream(s, p0);
                    let rest = token_stream(s, self.pos as int);
                    &&& ts.len() == out@.len() + rest.len()
                    &&& forall|i: int|
                        0 <= i < out@.len() ==> (#[trigger] out@[i]).ttype == ts[i].ttype
                            && out@[i].literal@ == ts[i].lit
                    &&& forall|i: int|
                        0 <= i < rest.len() ==> rest[i] == ts[out@.len() + i]
                }),
            ensures
                self.wf(),
                self.bytes@ == s,
                token_stream(s, self.pos as int).len() == 0,
                ({
                    let ts = token_stream(s, p0);
                    &&& ts.len() == out@.len()
                    &&& forall|i: int|
                        0 <= i < out@.len() ==> (#[trigger] out@[i]).ttype == ts[i].ttype
                            && out@[i].literal@ == ts[i].lit
                }),
            decreases s.len() - self.pos,
        {
            let ghost pos_before = self.pos as int;
            let ghost rest_before = token_stream(s, pos_before);
            match self.next_token() {
                Option::None => {
                    proof {
                        lemma_ws_end_bounds(s, pos_before);
                        let j = ws_end(s, pos_before);
                        assert(rest_before =~= Seq::<TokView>::empty());
                        if j < s.len() {
                            assert(s[j] == 0);
                            assert(!is_ws_b(s[j]));
                            assert(ws_end(s, j) == j);
                        }
                        assert(token_stream(s, j).len() == 0);
                    }
                    break ;
                },
                Option::Some(tok) => {
                    proof {
                        lemma_ws_end_bounds(s, pos_before);
                        let j = ws_end(s, pos_before);
                        lemma_tok_end_bounds(s, j);
                        assert(rest_before == seq![
                            TokView { ttype: tok_type_at(s, j), lit: tok_lit_at(s, j) },
                        ] + token_stream(s, tok_end(s, j)));
                        assert(rest_before[0] == TokView {
                            ttype: tok_type_at(s, j),
                            lit: tok_lit_at(s, j),
                        });
                        assert(token_stream(s, tok_end(s, j)) =~= rest_before.skip(1));
                    }
                    out.push(tok);
                },
            }
        }
        out
    }
}

} // verus!
