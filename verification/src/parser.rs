use vstd::prelude::*;
use vstd::string::StrSliceExecFns;
use vstd::string::StringExecFns;
use crate::lexer::Lexer;
use crate::lexer::TokView;
use crate::lexer::token_stream;
use crate::object::ConsList;
use crate::object::Node;
use crate::object::NodeV;
use crate::object::Program;
use crate::object::cons_view;
use crate::object::node_view;
use crate::strutil::upper_seq;
use crate::token::Token;
use crate::token::TokenType;
use crate::strutil::all_dec_digits;
use crate::strutil::all_hex_digits;
use crate::strutil::dec_digit_val;
use crate::strutil::dec_val;
use crate::strutil::hex_digit_val;
use crate::strutil::hex_val;
use crate::strutil::is_dec_digit;
use crate::strutil::is_hex_digit_char;

verus! {

// ---------------------------------------------------------------------------
// Numeric literals
// ---------------------------------------------------------------------------
/// The sequence with every leading `0x` pair removed.
pub open spec fn strip_radix(s: Seq<char>) -> Seq<char>
    decreases s.len(),
{
    if s.len() >= 2 && s[0] == '0' && s[1] == 'x' {
        strip_radix(s.skip(2))
    } else {
        s
    }
}

/// The number a decimal literal denotes: an optional plus sign, then at
/// least one decimal digit, denoting a value that fits in 64 bits.
pub open spec fn spec_parse_dec(s: Seq<char>) -> Option<u64> {
    let t = if s.len() > 0 && s[0] == '+' {
        s.skip(1)
    } else {
        s
    };
    if t.len() > 0 && all_dec_digits(t) && dec_val(t) <= u64::MAX {
        Option::Some(dec_val(t) as u64)
    } else {
        Option::None
    }
}

/// The number a hexadecimal digit string denotes, with an optional plus
/// sign.
pub open spec fn spec_parse_hex(s: Seq<char>) -> Option<u64> {
    let t = if s.len() > 0 && s[0] == '+' {
        s.skip(1)
    } else {
        s
    };
    if t.len() > 0 && all_hex_digits(t) && hex_val(t) <= u64::MAX {
        Option::Some(hex_val(t) as u64)
    } else {
        Option::None
    }
}

/// The number a literal denotes: hexadecimal when it starts with `0x` (every
/// leading `0x` pair is stripped), decimal otherwise.
pub open spec fn spec_parse_u64(s: Seq<char>) -> Option<u64> {
    if s.len() >= 2 && s[0] == '0' && s[1] == 'x' {
        spec_parse_hex(strip_radix(s))
    } else {
        spec_parse_dec(s)
    }
}

proof fn lemma_dec_prefix_le(t: Seq<char>, m: int)
    requires
        0 <= m <= t.len(),
    ensures
        dec_val(t.take(m)) <= dec_val(t),
    decreases t.len(),
{
    if m < t.len() {
        assert(t.drop_last().take(m) =~= t.take(m));
        lemma_dec_prefix_le(t.drop_last(), m);
        assert(dec_val(t) == dec_val(t.drop_last()) * 10 + dec_digit_val(t.last()));
    } else {
        assert(t.take(m) =~= t);
    }
}

proof fn lemma_hex_prefix_le(t: Seq<char>, m: int)
    requires
        0 <= m <= t.len(),
    ensures
        hex_val(t.take(m)) <= hex_val(t),
    decreases t.len(),
{
    if m < t.len() {
        assert(t.drop_last().take(m) =~= t.take(m));
        lemma_hex_prefix_le(t.drop_last(), m);
        assert(hex_val(t) == hex_val(t.drop_last()) * 16 + hex_digit_val(t.last()));
    } else {
        assert(t.take(m) =~= t);
    }
}

/// Whether a character is a decimal digit, decided at run time.
fn is_dec_digit_char(c: char) -> (r: bool)
    ensures
        r == is_dec_digit(c),
{
    '0' <= c && c <= '9'
}

/// The value of a hexadecimal digit, or nothing for another character.
fn hex_digit_value(c: char) -> (r: Option<u64>)
    ensures
        match r {
            Option::Some(v) => is_hex_digit_char(c) && v == hex_digit_val(c) && v < 16,
            Option::None => !is_hex_digit_char(c),
        },
{
    if '0' <= c && c <= '9' {
        Option::Some((c as u8 - 48) as u64)
    } else if 'a' <= c && c <= 'f' {
        Option::Some((c as u8 - 87) as u64)
    } else if 'A' <= c && c <= 'F' {
        Option::Some((c as u8 - 55) as u64)
    } else {
        Option::None
    }
}

/// Parses the decimal digits of `s` from `start` on.
fn parse_dec_digits(s: &str, start: usize) -> (r: Option<u64>)
    requires
        start <= s@.len(),
    ensures
        ({
            let t = s@.skip(start as int);
            match r {
                Option::Some(v) => t.len() > 0 && all_dec_digits(t) && dec_val(t) == v,
                Option::None => !(t.len() > 0 && all_dec_digits(t) && dec_val(t) <= u64::MAX),
            }
        }),
{
    let ghost t = s@.skip(start as int);
    let len = s.unicode_len();
    if start >= len {
        return Option::None;
    }
    let mut val: u64 = 0;
    let mut k: usize = start;
    while k < len
        invariant
            start <= k <= len,
            len == s@.len(),
            t == s@.skip(start as int),
            all_dec_digits(t.take(k - start)),
            val == dec_val(t.take(k - start)),
        decreases len - k,
    {
        let c = s.get_char(k);
        proof {
            assert(t[k - start] == s@[k as int]);
        }
        if !is_dec_digit_char(c) {
            proof {
                assert(!is_dec_digit(t[k - start]));
            }
            return Option::None;
        }
        let d: u64 = (c as u8 - 48) as u64;
        proof {
            assert(d == dec_digit_val(c));
            assert(d <= 9);
        }
        if val > (u64::MAX - d) / 10 {
            proof {
                let m = (k - start) as int;
                assert(t.take(m + 1).drop_last() =~= t.take(m));
                assert(t.take(m + 1).last() == c);
                assert(dec_val(t.take(m + 1)) == dec_val(t.take(m)) * 10 + dec_digit_val(c));
                assert((val as nat) * 10 + d > u64::MAX) by (nonlinear_arith)
                    requires
                        val > (u64::MAX - d) / 10,
                        d <= 9,
                ;
                lemma_dec_prefix_le(t, m + 1);
            }
            return Option::None;
        }
        let ghost m = (k - start) as int;
        val = val * 10 + d;
        k = k + 1;
        proof {
            assert(t.take(m + 1).drop_last() =~= t.take(m));
            assert(t.take(m + 1).last() == c);
            assert(dec_val(t.take(m + 1)) == dec_val(t.take(m)) * 10 + dec_digit_val(c));
            assert forall|i: int| 0 <= i < m + 1 implies is_dec_digit(#[trigger] t.take(m + 1)[i])
                by {
                if i < m {
                    assert(t.take(m + 1)[i] == t.take(m)[i]);
                }
            }
        }
    }
    proof {
        assert(t.take((len - start) as int) =~= t);
    }
    Option::Some(val)
}

/// Parses the hexadecimal digits of `s` from `start` on.
fn parse_hex_digits(s: &str, start: usize) -> (r: Option<u64>)
    requires
        start <= s@.len(),
    ensures
        ({
            let t = s@.skip(start as int);
            match r {
                Option::Some(v) => t.len() > 0 && all_hex_digits(t) && hex_val(t) == v,
                Option::None => !(t.len() > 0 && all_hex_digits(t) && hex_val(t) <= u64::MAX),
            }
        }),
{
    let ghost t = s@.skip(start as int);
    let len = s.unicode_len();
    if start >= len {
        return Option::None;
    }
    let mut val: u64 = 0;
    let mut k: usize = start;
    while k < len
        invariant
            start <= k <= len,
            len == s@.len(),
            t == s@.skip(start as int),
            all_hex_digits(t.take(k - start)),
            val == hex_val(t.take(k - start)),
        decreases len - k,
    {
        let c = s.get_char(k);
        proof {
            assert(t[k - start] == s@[k as int]);
        }
        let d: u64 = match hex_digit_value(c) {
            Option::Some(d) => d,
            Option::None => {
                proof {
                    assert(!is_hex_digit_char(t[k - start]));
                }
                return Option::None;
            },
        };
        if val > (u64::MAX - d) / 16 {
            proof {
                let m = (k - start) as int;
                assert(t.take(m + 1).drop_last() =~= t.take(m));
                assert(t.take(m + 1).last() == c);
                assert(hex_val(t.take(m + 1)) == hex_val(t.take(m)) * 16 + hex_digit_val(c));
                assert((val as nat) * 16 + d > u64::MAX) by (nonlinear_arith)
                    requires
                        val > (u64::MAX - d) / 16,
                        d <= 15,
                ;
                lemma_hex_prefix_le(t, m + 1);
            }
            return Option::None;
        }
        let ghost m = (k - start) as int;
        val = val * 16 + d;
        k = k + 1;
        proof {
            assert(t.take(m + 1).drop_last() =~= t.take(m));
            assert(t.take(m + 1).last() == c);
            assert(hex_val(t.take(m + 1)) == hex_val(t.take(m)) * 16 + hex_digit_val(c));
            assert forall|i: int| 0 <= i < m + 1 implies is_hex_digit_char(
                #[trigger] t.take(m + 1)[i],
            ) by {
                if i < m {
                    assert(t.take(m + 1)[i] == t.take(m)[i]);
                }
            }
        }
    }
    proof {
        assert(t.take((len - start) as int) =~= t);
    }
    Option::Some(val)
}

/// Parses a numeric literal: decimal, or hexadecimal after a `0x` prefix.
pub fn parse_u64(s: &str) -> (r: Option<u64>)
    ensures
        r == spec_parse_u64(s@),
{
    let len = s.unicode_len();
    if len >= 2 && s.get_char(0) == '0' && s.get_char(1) == 'x' {
        let mut i: usize = 0;
        proof {
            assert(s@.skip(0) =~= s@);
        }
        while len - i >= 2 && s.get_char(i) == '0' && s.get_char(i + 1) == 'x'
            invariant
                i <= len,
                len == s@.len(),
                strip_radix(s@) == strip_radix(s@.skip(i as int)),
            decreases len - i,
        {
            proof {
                let u = s@.skip(i as int);
                assert(u[0] == s@[i as int]);
                assert(u[1] == s@[i + 1]);
                assert(u.skip(2) =~= s@.skip(i + 2));
                assert(strip_radix(u) == strip_radix(u.skip(2)));
            }
            i = i + 2;
        }
        proof {
            let u = s@.skip(i as int);
            if i + 2 <= len {
                assert(u[0] == s@[i as int]);
                assert(u[1] == s@[i + 1]);
                assert(!(u.len() >= 2 && u[0] == '0' && u[1] == 'x'));
            }
            assert(strip_radix(u) == u);
        }
        let start = if i < len && s.get_char(i) == '+' {
            proof {
                assert(s@.skip(i as int)[0] == '+');
                assert(s@.skip(i as int).skip(1) =~= s@.skip(i + 1));
            }
            i + 1
        } else {
            i
        };
        parse_hex_digits(s, start)
    } else {
        let start = if len > 0 && s.get_char(0) == '+' {
            proof {
                assert(s@.skip(0) =~= s@);
                assert(s@.skip(1) =~= s@.skip(0int + 1));
            }
            1
        } else {
            proof {
                assert(s@.skip(0) =~= s@);
            }
            0
        };
        parse_dec_digits(s, start)
    }
}

/// A canonical decimal rendering parses back to the number it was made
/// from.
pub proof fn lemma_dec_chars_parse(n: u64)
    ensures
        spec_parse_u64(crate::strutil::dec_chars(n as nat)) == Option::Some(n),
{
    let s = crate::strutil::dec_chars(n as nat);
    crate::strutil::lemma_dec_chars_props(n as nat);
    lemma_dec_chars_first_nonzero(n as nat);
    if n < 10 {
        assert(s.len() == 1);
    } else {
        assert(s[0] != '0');
    }
    assert(!(s.len() >= 2 && s[0] == '0' && s[1] == 'x'));
    assert(is_dec_digit(s[0]));
    assert(s[0] != '+');
    assert(spec_parse_dec(s) == Option::Some(n));
}

proof fn lemma_dec_chars_first_nonzero(n: nat)
    ensures
        n >= 1 ==> crate::strutil::dec_chars(n)[0] != '0',
    decreases n,
{
    if n >= 10 {
        lemma_dec_chars_first_nonzero(n / 10);
        crate::strutil::lemma_dec_chars_props(n / 10);
        let f = crate::strutil::dec_chars(n / 10);
        assert(crate::strutil::dec_chars(n)[0] == f[0]);
    }
}

// ---------------------------------------------------------------------------
// What a token stream parses to
// ---------------------------------------------------------------------------
/// How a parse fails: a specific token was required and another was seen, or
/// the code itself is invalid (an unknown top-level token, a bad number).
pub enum PFail {
    Expected,
    Invalid,
}

/// The state of the parse after some tokens: a stack of partial lists (the
/// bottom entry is the program, each further entry an open list), or a
/// failure.
pub enum PStep {
    Good(Seq<Seq<NodeV>>),
    Bad(PFail),
}

/// The stack with a finished value appended to its innermost open list.
pub open spec fn push_top(st: Seq<Seq<NodeV>>, v: NodeV) -> Seq<Seq<NodeV>> {
    st.update(st.len() - 1, st.last().push(v))
}

/// One token's effect on the parse stack.
#[verifier::opaque]
pub open spec fn parse_step(st: Seq<Seq<NodeV>>, t: TokView) -> PStep {
    if t.ttype == TokenType::COMMENT {
        PStep::Good(st)
    } else if st.len() <= 1 {
        if t.ttype == TokenType::LPAREN {
            PStep::Good(st.push(Seq::<NodeV>::empty()))
        } else {
            PStep::Bad(PFail::Invalid)
        }
    } else if t.ttype == TokenType::LPAREN {
        PStep::Good(st.push(Seq::<NodeV>::empty()))
    } else if t.ttype == TokenType::RPAREN {
        let parent = st[st.len() - 2].push(NodeV::List(st.last()));
        PStep::Good(st.take(st.len() - 2).push(parent))
    } else if t.ttype == TokenType::SYMBOL {
        PStep::Good(push_top(st, NodeV::Symbol(upper_seq(t.lit))))
    } else if t.ttype == TokenType::NUMBER {
        match spec_parse_u64(t.lit) {
            Option::Some(n) => PStep::Good(push_top(st, NodeV::Number(n))),
            Option::None => PStep::Bad(PFail::Invalid),
        }
    } else if t.ttype == TokenType::STRING {
        PStep::Good(push_top(st, NodeV::Str(t.lit)))
    } else {
        PStep::Bad(PFail::Expected)
    }
}

/// The parse state after running the tokens from position `i` on.
#[verifier::opaque]
pub open spec fn parse_run(ts: Seq<TokView>, i: int, st: Seq<Seq<NodeV>>) -> PStep
    decreases ts.len() - i,
    when 0 <= i <= ts.len()
{
    if i >= ts.len() {
        PStep::Good(st)
    } else {
        match parse_step(st, ts[i]) {
            PStep::Good(st2) => parse_run(ts, i + 1, st2),
            PStep::Bad(k) => PStep::Bad(k),
        }
    }
}

/// What a whole token stream parses to: the program's forms, or a failure.
pub enum SpecParse {
    Parsed(Seq<NodeV>),
    Fail(PFail),
}

/// The result of parsing a whole token stream.  A stream that ends inside an
/// open list fails as an expected-token error.
pub open spec fn parse_spec(ts: Seq<TokView>) -> SpecParse {
    match parse_run(ts, 0, seq![Seq::<NodeV>::empty()]) {
        PStep::Good(st) => {
            if st.len() == 1 {
                SpecParse::Parsed(st[0])
            } else {
                SpecParse::Fail(PFail::Expected)
            }
        },
        PStep::Bad(k) => SpecParse::Fail(k),
    }
}

/// The values of a sequence of nodes.
pub open spec fn nodes_view(v: Seq<Node>) -> Seq<NodeV> {
    v.map_values(|n: Node| node_view(n))
}

// Step lemmas: each exposes one clause of the machine's definition, so that
// proofs stay small.
proof fn lemma_run_end(ts: Seq<TokView>, i: int, st: Seq<Seq<NodeV>>)
    requires
        0 <= i <= ts.len(),
        i >= ts.len(),
    ensures
        parse_run(ts, i, st) == PStep::Good(st),
{
    reveal(parse_run);
}

proof fn lemma_run_good(ts: Seq<TokView>, i: int, st: Seq<Seq<NodeV>>, st2: Seq<Seq<NodeV>>)
    requires
        0 <= i < ts.len(),
        parse_step(st, ts[i]) == PStep::Good(st2),
    ensures
        parse_run(ts, i, st) == parse_run(ts, i + 1, st2),
{
    reveal(parse_run);
}

proof fn lemma_run_bad(ts: Seq<TokView>, i: int, st: Seq<Seq<NodeV>>, k: PFail)
    requires
        0 <= i < ts.len(),
        parse_step(st, ts[i]) == PStep::Bad(k),
    ensures
        parse_run(ts, i, st) == PStep::Bad(k),
{
    reveal(parse_run);
}

proof fn lemma_step_comment(st: Seq<Seq<NodeV>>, t: TokView)
    requires
        t.ttype == TokenType::COMMENT,
    ensures
        parse_step(st, t) == PStep::Good(st),
{
    reveal(parse_step);
}

proof fn lemma_step_lparen(st: Seq<Seq<NodeV>>, t: TokView)
    requires
        t.ttype == TokenType::LPAREN,
    ensures
        parse_step(st, t) == PStep::Good(st.push(Seq::<NodeV>::empty())),
{
    reveal(parse_step);
}

proof fn lemma_step_rparen(st: Seq<Seq<NodeV>>, t: TokView, base: Seq<Seq<NodeV>>, ev: Seq<NodeV>)
    requires
        t.ttype == TokenType::RPAREN,
        base.len() >= 1,
        st == base.push(ev),
    ensures
        parse_step(st, t) == PStep::Good(push_top(base, NodeV::List(ev))),
{
    reveal(parse_step);
    assert(st.len() >= 2);
    assert(st[st.len() - 2] == base.last());
    assert(st.last() == ev);
    let parent = base.last().push(NodeV::List(ev));
    assert(st.take(st.len() - 2) =~= base.take(base.len() - 1));
    assert(st.take(st.len() - 2).push(parent) =~~= push_top(base, NodeV::List(ev)));
}

proof fn lemma_step_atom(st: Seq<Seq<NodeV>>, t: TokView, nv: NodeV)
    requires
        st.len() >= 2,
        (t.ttype == TokenType::SYMBOL && nv == NodeV::Symbol(upper_seq(t.lit))) || (t.ttype
            == TokenType::NUMBER && spec_parse_u64(t.lit) == Option::Some(nv->Number_0) && nv
            is Number) || (t.ttype == TokenType::STRING && nv == NodeV::Str(t.lit)),
    ensures
        parse_step(st, t) == PStep::Good(push_top(st, nv)),
{
    reveal(parse_step);
}

proof fn lemma_step_bad_top(st: Seq<Seq<NodeV>>, t: TokView)
    requires
        st.len() <= 1,
        t.ttype != TokenType::COMMENT,
        t.ttype != TokenType::LPAREN,
    ensures
        parse_step(st, t) == PStep::Bad(PFail::Invalid),
{
    reveal(parse_step);
}

proof fn lemma_step_bad_number(st: Seq<Seq<NodeV>>, t: TokView)
    requires
        st.len() >= 2,
        t.ttype == TokenType::NUMBER,
        spec_parse_u64(t.lit) == Option::None::<u64>,
    ensures
        parse_step(st, t) == PStep::Bad(PFail::Invalid),
{
    reveal(parse_step);
}

proof fn lemma_step_bad_other(st: Seq<Seq<NodeV>>, t: TokView)
    requires
        st.len() >= 2,
        t.ttype != TokenType::COMMENT,
        t.ttype != TokenType::LPAREN,
        t.ttype != TokenType::RPAREN,
        t.ttype != TokenType::SYMBOL,
        t.ttype != TokenType::NUMBER,
        t.ttype != TokenType::STRING,
    ensures
        parse_step(st, t) == PStep::Bad(PFail::Expected),
{
    reveal(parse_step);
}

/// Comment tokens are invisible to the parser: inserting a comment anywhere
/// in a token stream leaves the parse of the stream unchanged.
pub proof fn lemma_comment_insert(ts: Seq<TokView>, k: int, t: TokView)
    requires
        t.ttype == TokenType::COMMENT,
        0 <= k <= ts.len(),
    ensures
        parse_spec(ts.insert(k, t)) == parse_spec(ts),
{
    lemma_run_insert_prefix(ts, k, t, 0, seq![Seq::<NodeV>::empty()]);
}

proof fn lemma_run_suffix(ts: Seq<TokView>, k: int, t: TokView, j: int, st: Seq<Seq<NodeV>>)
    requires
        t.ttype == TokenType::COMMENT,
        0 <= k <= j <= ts.len(),
    ensures
        parse_run(ts.insert(k, t), j + 1, st) == parse_run(ts, j, st),
    decreases ts.len() - j,
{
    let ins = ts.insert(k, t);
    assert(ins.len() == ts.len() + 1);
    if j >= ts.len() {
        lemma_run_end(ins, j + 1, st);
        lemma_run_end(ts, j, st);
    } else {
        assert(ins[j + 1] == ts[j]);
        match parse_step(st, ts[j]) {
            PStep::Good(st2) => {
                lemma_run_good(ins, j + 1, st, st2);
                lemma_run_good(ts, j, st, st2);
                lemma_run_suffix(ts, k, t, j + 1, st2);
            },
            PStep::Bad(kk) => {
                lemma_run_bad(ins, j + 1, st, kk);
                lemma_run_bad(ts, j, st, kk);
            },
        }
    }
}

proof fn lemma_run_insert_prefix(
    ts: Seq<TokView>,
    k: int,
    t: TokView,
    i: int,
    st: Seq<Seq<NodeV>>,
)
    requires
        t.ttype == TokenType::COMMENT,
        0 <= i <= k <= ts.len(),
    ensures
        parse_run(ts.insert(k, t), i, st) == parse_run(ts, i, st),
    decreases k - i,
{
    let ins = ts.insert(k, t);
    assert(ins.len() == ts.len() + 1);
    if i == k {
        assert(ins[k] == t);
        lemma_step_comment(st, t);
        lemma_run_good(ins, k, st, st);
        lemma_run_suffix(ts, k, t, k, st);
    } else {
        assert(ins[i] == ts[i]);
        match parse_step(st, ts[i]) {
            PStep::Good(st2) => {
                lemma_run_good(ins, i, st, st2);
                lemma_run_good(ts, i, st, st2);
                lemma_run_insert_prefix(ts, k, t, i + 1, st2);
            },
            PStep::Bad(kk) => {
                lemma_run_bad(ins, i, st, kk);
                lemma_run_bad(ts, i, st, kk);
            },
        }
    }
}

// ---------------------------------------------------------------------------
// Parse errors
// ---------------------------------------------------------------------------
/// A structured parse error; each variant carries its formatted message.
#[derive(Debug)]
pub enum ParserError {
    InvalidCode(String),
    ExpectedToken(String),
    ValidationError(String),
    FileNotFound(String),
}

impl ParserError {
    /// The formatted message of the error.
    pub fn message(&self) -> (r: &str)
        ensures
            r@ == (match self {
                ParserError::InvalidCode(s) => s@,
                ParserError::ExpectedToken(s) => s@,
                ParserError::ValidationError(s) => s@,
                ParserError::FileNotFound(s) => s@,
            }),
    {
        match self {
            ParserError::InvalidCode(s) => s.as_str(),
            ParserError::ExpectedToken(s) => s.as_str(),
            ParserError::ValidationError(s) => s.as_str(),
            ParserError::FileNotFound(s) => s.as_str(),
        }
    }
}

/// The display name of a token kind, used in diagnostics.
fn ttype_name(t: TokenType) -> &'static str {
    match t {
        TokenType::ILLEGAL => "ILLEGAL",
        TokenType::EOF => "EOF",
        TokenType::COMMENT => "COMMENT",
        TokenType::COMMA => "COMMA",
        TokenType::SYMBOL => "SYMBOL",
        TokenType::NUMBER => "NUMBER",
        TokenType::STRING => "STRING",
        TokenType::RPAREN => "RPAREN",
        TokenType::LPAREN => "LPAREN",
        TokenType::QUOTE => "QUOTE",
    }
}

fn position_msg(prefix: &str, tok: &Token) -> String {
    let mut m = String::from_str(tok.file.as_str());
    m.append(": line ");
    let line = crate::strutil::u64_to_dec(tok.line as u64);
    m.append(line.as_str());
    m.append(", col ");
    let col = crate::strutil::u64_to_dec(tok.col as u64);
    m.append(col.as_str());
    m.append(" ");
    m.append(prefix);
    m
}

fn unknown_token_msg(tok: &Token) -> String {
    let mut m = position_msg("Unknown token ", tok);
    m.append(ttype_name(tok.ttype));
    m
}

fn failed_number_msg(tok: &Token) -> String {
    position_msg("Failed parsing number", tok)
}

fn expected_forms_msg(got: &str, line: u32, file: &str) -> String {
    let mut m = String::from_str("expected [LPAREN, NUMBER, STRING, SYMBOL] on line ");
    let l = crate::strutil::u64_to_dec(line as u64);
    m.append(l.as_str());
    m.append(" in ");
    m.append(file);
    m.append(", got ");
    m.append(got);
    m
}
// ---------------------------------------------------------------------------
// The parser
// ---------------------------------------------------------------------------
/// A recursive-descent parser over a fully lexed token vector.
pub struct Parser {
    pub tokens: Vec<Token>,
    pub pos: usize,
}

/// The step an atom takes and the elements gathered so far, advanced by one.
proof fn lemma_inv_atom(
    ts: Seq<TokView>,
    p0: int,
    p: int,
    ev: Seq<NodeV>,
    nv: NodeV,
    ev2: Seq<NodeV>,
)
    requires
        0 <= p0,
        0 <= p < ts.len(),
        ev2 == ev.push(nv),
        (ts[p].ttype == TokenType::SYMBOL && nv == NodeV::Symbol(upper_seq(ts[p].lit))) || (
        ts[p].ttype == TokenType::NUMBER && spec_parse_u64(ts[p].lit) == Option::Some(nv->Number_0)
            && nv is Number) || (ts[p].ttype == TokenType::STRING && nv == NodeV::Str(ts[p].lit)),
        forall|st: Seq<Seq<NodeV>>|
            st.len() >= 1 ==> parse_run(ts, p0, #[trigger] st.push(Seq::<NodeV>::empty()))
                == parse_run(ts, p, st.push(ev)),
    ensures
        forall|st: Seq<Seq<NodeV>>|
            st.len() >= 1 ==> parse_run(ts, p0, #[trigger] st.push(Seq::<NodeV>::empty()))
                == parse_run(ts, p + 1, st.push(ev2)),
{
    assert forall|st: Seq<Seq<NodeV>>| st.len() >= 1 implies parse_run(
        ts,
        p0,
        #[trigger] st.push(Seq::<NodeV>::empty()),
    ) == parse_run(ts, p + 1, st.push(ev2)) by {
        let stp = st.push(ev);
        lemma_step_atom(stp, ts[p], nv);
        assert(push_top(stp, nv) =~~= st.push(ev2));
        lemma_run_good(ts, p, stp, push_top(stp, nv));
    }
}

impl Parser {
    /// The cursor stays within the tokens.
    pub open spec fn wf(&self) -> bool {
        self.pos <= self.tokens@.len()
    }

    /// The token stream as the parse specification sees it.
    pub open spec fn toks(&self) -> Seq<TokView> {
        self.tokens@.map_values(|t: Token| TokView { ttype: t.ttype, lit: t.literal@ })
    }

    /// A parser over everything the given lexer still has to offer.
    pub fn new(lexer: &mut Lexer) -> (r: Parser)
        requires
            old(lexer).wf(),
        ensures
            r.wf(),
            r.pos == 0,
            r.toks() == token_stream(old(lexer).bytes@, old(lexer).pos as int),
    {
        let tokens = lexer.lex_all();
        let r = Parser { tokens, pos: 0 };
        proof {
            assert(r.toks() =~= token_stream(old(lexer).bytes@, old(lexer).pos as int));
        }
        r
    }

    /// Parses the whole token stream into a program: the list of its
    /// top-level forms.  The result is exactly what the stream parses to:
    /// an invalid-code error comes exactly when the stream fails as invalid
    /// code, an expected-token error exactly when a needed token is missing
    /// or the stream ends inside an open list.
    pub fn parse(self) -> (r: Result<Program, ParserError>)
        requires
            self.wf(),
            self.pos == 0,
        ensures
            match r {
                Ok(prog) => parse_spec(self.toks()) == SpecParse::Parsed(prog@),
                Err(e) => {
                    &&& (e is InvalidCode) <==> parse_spec(self.toks()) == SpecParse::Fail(
                        PFail::Invalid,
                    )
                    &&& (e is ExpectedToken) <==> parse_spec(self.toks()) == SpecParse::Fail(
                        PFail::Expected,
                    )
                    &&& (e is InvalidCode) || (e is ExpectedToken)
                },
            },
    {
        let ghost ts = self.toks();
        let mut this = self;
        let mut forms: Vec<Node> = Vec::new();
        proof {
            assert(nodes_view(forms@) =~= Seq::<NodeV>::empty());
        }
        loop
            invariant
                this.wf(),
                this.toks() == ts,
                ts == self.toks(),
                this.tokens@.len() == ts.len(),
                parse_run(ts, 0, seq![Seq::<NodeV>::empty()]) == parse_run(
                    ts,
                    this.pos as int,
                    seq![nodes_view(forms@)],
                ),
            ensures
                this.wf(),
                this.toks() == ts,
                parse_run(ts, 0, seq![Seq::<NodeV>::empty()]) == PStep::Good(
                    seq![nodes_view(forms@)],
                ),
            decreases ts.len() - this.pos,
        {
            if this.pos >= this.tokens.len() {
                proof {
                    lemma_run_end(ts, this.pos as int, seq![nodes_view(forms@)]);
                }
                break ;
            }
            let ghost p = this.pos as int;
            let ghost st0: Seq<Seq<NodeV>> = seq![nodes_view(forms@)];
            let tt = this.tokens[this.pos].ttype;
            proof {
                assert(ts[p].ttype == tt);
            }
            if tt == TokenType::COMMENT {
                this.pos = this.pos + 1;
                proof {
                    lemma_step_comment(st0, ts[p]);
                    lemma_run_good(ts, p, st0, st0);
                }
            } else if tt == TokenType::LPAREN {
                this.pos = this.pos + 1;
                proof {
                    lemma_step_lparen(st0, ts[p]);
                    lemma_run_good(ts, p, st0, st0.push(Seq::<NodeV>::empty()));
                }
                let inner = this.parse_list();
                match inner {
                    Ok(node) => {
                        let ghost nv = node@;
                        forms.push(node);
                        proof {
                            assert(parse_run(ts, p + 1, st0.push(Seq::<NodeV>::empty()))
                                == parse_run(ts, this.pos as int, push_top(st0, nv)));
                            assert(push_top(st0, nv) =~~= seq![nodes_view(forms@)]);
                        }
                    },
                    Err(e) => {
                        proof {
                            let rr = parse_run(ts, p + 1, st0.push(Seq::<NodeV>::empty()));
                            if e is InvalidCode {
                                assert(rr == PStep::Bad(PFail::Invalid));
                                assert(parse_spec(ts) == SpecParse::Fail(PFail::Invalid));
                            } else {
                                match rr {
                                    PStep::Good(stf) => {
                                        assert(stf.len() >= 2);
                                        assert(parse_spec(ts) == SpecParse::Fail(PFail::Expected));
                                    },
                                    PStep::Bad(k) => {
                                        assert(parse_spec(ts) == SpecParse::Fail(PFail::Expected));
                                    },
                                }
                            }
                        }
                        return Err(e);
                    },
                }
            } else {
                let msg = unknown_token_msg(&this.tokens[this.pos]);
                proof {
                    lemma_step_bad_top(st0, ts[p]);
                    lemma_run_bad(ts, p, st0, PFail::Invalid);
                    assert(parse_spec(ts) == SpecParse::Fail(PFail::Invalid));
                }
                return Err(ParserError::InvalidCode(msg));
            }
        }
        let prog = ConsList::from_vec(&forms);
        proof {
            assert(prog@ =~= nodes_view(forms@));
            assert(parse_spec(ts) == SpecParse::Parsed(prog@));
        }
        Ok(prog)
    }

    /// Parses the elements of one open list, the opening parenthesis already
    /// consumed, up to and including the matching closing parenthesis.
    fn parse_list(&mut self) -> (r: Result<Node, ParserError>)
        requires
            old(self).wf(),
        ensures
            final(self).wf(),
            final(self).toks() == old(self).toks(),
            final(self).tokens@.len() == old(self).tokens@.len(),
            ({
                let ts = old(self).toks();
                let p0 = old(self).pos as int;
                match r {
                    Ok(node) => {
                        &&& old(self).pos < final(self).pos
                        &&& forall|st: Seq<Seq<NodeV>>|
                            st.len() >= 1 ==> parse_run(ts, p0, #[trigger] st.push(
                                Seq::<NodeV>::empty(),
                            )) == parse_run(ts, final(self).pos as int, push_top(st, node@))
                    },
                    Err(e) => {
                        &&& ((e is InvalidCode) || (e is ExpectedToken))
                        &&& forall|st: Seq<Seq<NodeV>>|
                            st.len() >= 1 ==> ({
                                let rr = parse_run(ts, p0, #[trigger] st.push(
                                    Seq::<NodeV>::empty(),
                                ));
                                if e is InvalidCode {
                                    rr == PStep::Bad(PFail::Invalid)
                                } else {
                                    rr == PStep::Bad(PFail::Expected) || (match rr {
                                        PStep::Good(stf) => stf.len() >= 2,
                                        PStep::Bad(_) => false,
                                    })
                                }
                            })
                    },
                }
            }),
        decreases self.tokens@.len() - self.pos,
    {
        let ghost ts = self.toks();
        let ghost p0 = self.pos as int;
        let mut elems: Vec<Node> = Vec::new();
        proof {
            assert(nodes_view(elems@) =~= Seq::<NodeV>::empty());
        }
        loop
            invariant
                self.wf(),
                self.toks() == ts,
                self.tokens@.len() == ts.len(),
                p0 <= self.pos as int,
                ts == old(self).toks(),
                p0 == old(self).pos as int,
                forall|st: Seq<Seq<NodeV>>|
                    st.len() >= 1 ==> parse_run(ts, p0, #[trigger] st.push(Seq::<NodeV>::empty()))
                        == parse_run(ts, self.pos as int, st.push(nodes_view(elems@))),
            decreases ts.len() - self.pos,
        {
            let ghost p = self.pos as int;
            let ghost ev = nodes_view(elems@);
            if self.pos >= self.tokens.len() {
                proof {
                    assert forall|st: Seq<Seq<NodeV>>| st.len() >= 1 implies ({
                        let rr = parse_run(ts, p0, #[trigger] st.push(Seq::<NodeV>::empty()));
                        rr == PStep::Bad(PFail::Expected) || (match rr {
                            PStep::Good(stf) => stf.len() >= 2,
                            PStep::Bad(_) => false,
                        })
                    }) by {
                        lemma_run_end(ts, p, st.push(ev));
                    }
                }
                return Err(
                    ParserError::ExpectedToken(
                        expected_forms_msg(ttype_name(TokenType::EOF), 0, ""),
                    ),
                );
            }
            let tt = this_ttype(&self.tokens, self.pos);
            proof {
                assert(ts[p].ttype == tt);
                assert(ts[p].lit == self.tokens@[p].literal@);
            }
            if tt == TokenType::COMMENT {
                self.pos = self.pos + 1;
                proof {
                    assert forall|st: Seq<Seq<NodeV>>| st.len() >= 1 implies parse_run(
                        ts,
                        p0,
                        #[trigger] st.push(Seq::<NodeV>::empty()),
                    ) == parse_run(ts, p + 1, st.push(ev)) by {
                        lemma_step_comment(st.push(ev), ts[p]);
                        lemma_run_good(ts, p, st.push(ev), st.push(ev));
                    }
                }
            } else if tt == TokenType::RPAREN {
                self.pos = self.pos + 1;
                let node = Node::List(ConsList::from_vec(&elems));
                let ghost nv = node@;
                proof {
                    assert(cons_view(node->List_0) =~= ev);
                    assert(nv == NodeV::List(ev));
                    assert forall|st: Seq<Seq<NodeV>>| st.len() >= 1 implies parse_run(
                        ts,
                        p0,
                        #[trigger] st.push(Seq::<NodeV>::empty()),
                    ) == parse_run(ts, p + 1, push_top(st, nv)) by {
                        lemma_step_rparen(st.push(ev), ts[p], st, ev);
                        lemma_run_good(ts, p, st.push(ev), push_top(st, nv));
                    }
                }
                return Ok(node);
            } else if tt == TokenType::SYMBOL {
                let name = crate::strutil::to_upper_ascii(self.tokens[self.pos].literal.as_str());
                let node = Node::Symbol(name);
                let ghost nv = node@;
                elems.push(node);
                self.pos = self.pos + 1;
                proof {
                    assert(nodes_view(elems@) =~= ev.push(nv));
                    lemma_inv_atom(ts, p0, p, ev, nv, nodes_view(elems@));
                }
            } else if tt == TokenType::NUMBER {
                match parse_u64(self.tokens[self.pos].literal.as_str()) {
                    Option::Some(n) => {
                        let node = Node::Number(n);
                        let ghost nv = node@;
                        elems.push(node);
                        self.pos = self.pos + 1;
                        proof {
                            assert(nodes_view(elems@) =~= ev.push(nv));
                            lemma_inv_atom(ts, p0, p, ev, nv, nodes_view(elems@));
                        }
                    },
                    Option::None => {
                        let msg = failed_number_msg(&self.tokens[self.pos]);
                        proof {
                            assert forall|st: Seq<Seq<NodeV>>| st.len() >= 1 implies parse_run(
                                ts,
                                p0,
                                #[trigger] st.push(Seq::<NodeV>::empty()),
                            ) == PStep::Bad(PFail::Invalid) by {
                                lemma_step_bad_number(st.push(ev), ts[p]);
                                lemma_run_bad(ts, p, st.push(ev), PFail::Invalid);
                            }
                        }
                        return Err(ParserError::InvalidCode(msg));
                    },
                }
            } else if tt == TokenType::STRING {
                let node = Node::Str(self.tokens[self.pos].literal.clone());
                let ghost nv = node@;
                elems.push(node);
                self.pos = self.pos + 1;
                proof {
                    assert(nodes_view(elems@) =~= ev.push(nv));
                    lemma_inv_atom(ts, p0, p, ev, nv, nodes_view(elems@));
                }
            } else if tt == TokenType::LPAREN {
                self.pos = self.pos + 1;
                proof {
                    assert forall|st: Seq<Seq<NodeV>>| st.len() >= 1 implies parse_run(
                        ts,
                        p0,
                        #[trigger] st.push(Seq::<NodeV>::empty()),
                    ) == parse_run(ts, p + 1, st.push(ev).push(Seq::<NodeV>::empty())) by {
                        lemma_step_lparen(st.push(ev), ts[p]);
                        lemma_run_good(ts, p, st.push(ev), st.push(ev).push(Seq::<NodeV>::empty()));
                    }
                }
                let inner = self.parse_list();
                match inner {
                    Ok(node) => {
                        let ghost nv = node@;
                        let ghost npos = self.pos as int;
                        elems.push(node);
                        proof {
                            assert(nodes_view(elems@) =~= ev.push(nv));
                            assert forall|st: Seq<Seq<NodeV>>| st.len() >= 1 implies parse_run(
                                ts,
                                p0,
                                #[trigger] st.push(Seq::<NodeV>::empty()),
                            ) == parse_run(ts, npos, st.push(nodes_view(elems@))) by {
                                let stp = st.push(ev);
                                assert(parse_run(ts, p + 1, stp.push(Seq::<NodeV>::empty()))
                                    == parse_run(ts, npos, push_top(stp, nv)));
                                assert(push_top(stp, nv) =~~= st.push(ev.push(nv)));
                            }
                        }
                    },
                    Err(e) => {
                        proof {
                            assert forall|st: Seq<Seq<NodeV>>| st.len() >= 1 implies ({
                                let rr = parse_run(ts, p0, #[trigger] st.push(
                                    Seq::<NodeV>::empty(),
                                ));
                                if e is InvalidCode {
                                    rr == PStep::Bad(PFail::Invalid)
                                } else {
                                    rr == PStep::Bad(PFail::Expected) || (match rr {
                                        PStep::Good(stf) => stf.len() >= 2,
                                        PStep::Bad(_) => false,
                                    })
                                }
                            }) by {
                                let stp = st.push(ev);
                                assert(stp.len() >= 1);
                                let rr = parse_run(ts, p + 1, stp.push(Seq::<NodeV>::empty()));
                                if !(e is InvalidCode) {
                                    match rr {
                                        PStep::Good(stf) => {
                                            assert(stf.len() >= 2);
                                        },
                                        PStep::Bad(_) => {},
                                    }
                                }
                            }
                        }
                        return Err(e);
                    },
                }
            } else {
                let line = self.tokens[self.pos].line;
                let got = ttype_name(tt);
                let msg = expected_forms_msg(got, line, self.tokens[self.pos].file.as_str());
                proof {
                    assert forall|st: Seq<Seq<NodeV>>| st.len() >= 1 implies parse_run(
                        ts,
                        p0,
                        #[trigger] st.push(Seq::<NodeV>::empty()),
                    ) == PStep::Bad(PFail::Expected) by {
                        lemma_step_bad_other(st.push(ev), ts[p]);
                        lemma_run_bad(ts, p, st.push(ev), PFail::Expected);
                    }
                }
                return Err(ParserError::ExpectedToken(msg));
            }
        }
    }
}

/// Reads a token's kind.
fn this_ttype(tokens: &Vec<Token>, pos: usize) -> (r: TokenType)
    requires
        pos < tokens@.len(),
    ensures
        r == tokens@[pos as int].ttype,
{
    tokens[pos].ttype
}

} // verus!
