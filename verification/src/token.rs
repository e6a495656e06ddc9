use vstd::prelude::*;
use crate::error::{Error, Span};

verus! {

/// The lexical token kinds.  `Space`, `LineBreak` and `Comment` are
/// non-structural: the tokenizer produces them but the parser never sees
/// them.  The stream always ends with a single `EOF` token.
#[derive(Clone, Copy, PartialEq, Eq, Structural, Debug)]
pub enum Token {
    Id,
    Number,
    Add,
    Sub,
    Mul,
    Div,
    Space,
    Semicolon,
    Colon,
    Comma,
    LineBreak,
    Assign,
    EOF,
    OpenBrace,
    CloseBrace,
    OpenParen,
    CloseParen,
    OpenBracket,
    CloseBracket,
    If,
    Else,
    While,
    For,
    True,
    False,
    Let,
    Null,
    Fn,
    Undefined,
    TypeArrow,
    Extern,
    GT,
    GTE,
    EQ,
    LT,
    LTE,
    Comment,
}

pub open spec fn spec_structural(t: Token) -> bool {
    match t {
        Token::Space | Token::LineBreak | Token::Comment => false,
        _ => true,
    }
}

impl Token {
    /// The token that terminates every stream.
    pub fn eof() -> (r: Self)
        ensures
            r == Token::EOF,
    {
        Self::EOF
    }

    /// Whether the parser sees this token; whitespace, line breaks and
    /// comments are filtered out before parsing.
    pub fn is_structural(&self) -> (r: bool)
        ensures
            r == spec_structural(*self),
    {
        match self {
            Token::Space | Token::LineBreak | Token::Comment => false,
            _ => true,
        }
    }
}

/// One lexical unit: a kind and the source range it covers.
#[derive(Clone, Copy, PartialEq, Eq, Structural, Debug)]
pub struct Tok {
    pub token: Token,
    pub span: Span,
}

// ---------------------------------------------------------------------------
// Character classes
// ---------------------------------------------------------------------------

pub open spec fn is_space_char(c: char) -> bool {
    c == ' ' || c == '\t'
}

pub open spec fn is_break_char(c: char) -> bool {
    c == '\r' || c == '\n'
}

pub open spec fn is_digit_char(c: char) -> bool {
    '0' <= c && c <= '9'
}

pub open spec fn is_id_start_char(c: char) -> bool {
    ('a' <= c && c <= 'z') || ('A' <= c && c <= 'Z') || c == '_' || c == '$'
}

pub open spec fn is_id_char(c: char) -> bool {
    is_id_start_char(c) || is_digit_char(c)
}

// ---------------------------------------------------------------------------
// Maximal runs of a character class
// ---------------------------------------------------------------------------

pub open spec fn run_space_end(s: Seq<char>, j: nat) -> nat
    decreases s.len() - j,
{
    if j < s.len() && is_space_char(s[j as int]) {
        run_space_end(s, j + 1)
    } else {
        j
    }
}

pub open spec fn run_break_end(s: Seq<char>, j: nat) -> nat
    decreases s.len() - j,
{
    if j < s.len() && is_break_char(s[j as int]) {
        run_break_end(s, j + 1)
    } else {
        j
    }
}

pub open spec fn run_digit_end(s: Seq<char>, j: nat) -> nat
    decreases s.len() - j,
{
    if j < s.len() && is_digit_char(s[j as int]) {
        run_digit_end(s, j + 1)
    } else {
        j
    }
}

pub open spec fn run_id_end(s: Seq<char>, j: nat) -> nat
    decreases s.len() - j,
{
    if j < s.len() && is_id_char(s[j as int]) {
        run_id_end(s, j + 1)
    } else {
        j
    }
}

/// The first line-break character at or after `j`, or the end of the input.
pub open spec fn line_end(s: Seq<char>, j: nat) -> nat
    decreases s.len() - j,
{
    if j < s.len() && !is_break_char(s[j as int]) {
        line_end(s, j + 1)
    } else {
        j
    }
}

proof fn lemma_run_space_bounds(s: Seq<char>, j: nat)
    requires
        j <= s.len(),
    ensures
        j <= run_space_end(s, j) <= s.len(),
    decreases s.len() - j,
{
    if j < s.len() && is_space_char(s[j as int]) {
        lemma_run_space_bounds(s, j + 1);
    }
}

proof fn lemma_run_break_bounds(s: Seq<char>, j: nat)
    requires
        j <= s.len(),
    ensures
        j <= run_break_end(s, j) <= s.len(),
    decreases s.len() - j,
{
    if j < s.len() && is_break_char(s[j as int]) {
        lemma_run_break_bounds(s, j + 1);
    }
}

proof fn lemma_run_digit_bounds(s: Seq<char>, j: nat)
    requires
        j <= s.len(),
    ensures
        j <= run_digit_end(s, j) <= s.len(),
    decreases s.len() - j,
{
    if j < s.len() && is_digit_char(s[j as int]) {
        lemma_run_digit_bounds(s, j + 1);
    }
}

proof fn lemma_run_id_bounds(s: Seq<char>, j: nat)
    requires
        j <= s.len(),
    ensures
        j <= run_id_end(s, j) <= s.len(),
    decreases s.len() - j,
{
    if j < s.len() && is_id_char(s[j as int]) {
        lemma_run_id_bounds(s, j + 1);
    }
}

proof fn lemma_line_end_bounds(s: Seq<char>, j: nat)
    requires
        j <= s.len(),
    ensures
        j <= line_end(s, j) <= s.len(),
    decreases s.len() - j,
{
    if j < s.len() && !is_break_char(s[j as int]) {
        lemma_line_end_bounds(s, j + 1);
    }
}

fn ch_space(c: char) -> (r: bool)
    ensures
        r == is_space_char(c),
{
    c == ' ' || c == '\t'
}

fn ch_break(c: char) -> (r: bool)
    ensures
        r == is_break_char(c),
{
    c == '\r' || c == '\n'
}

fn ch_digit(c: char) -> (r: bool)
    ensures
        r == is_digit_char(c),
{
    '0' <= c && c <= '9'
}

fn ch_id(c: char) -> (r: bool)
    ensures
        r == is_id_char(c),
{
    exec_is_id_start(c) || ('0' <= c && c <= '9')
}

fn ch_not_break(c: char) -> (r: bool)
    ensures
        r == !is_break_char(c),
{
    c != '\r' && c != '\n'
}

fn exec_run_space(s: &Vec<char>, j: usize) -> (r: usize)
    requires
        j <= s@.len(),
    ensures
        r == run_space_end(s@, j as nat),
        j <= r <= s@.len(),
{
    let mut k = j;
    while k < s.len() && ch_space(s[k])
        invariant
            j <= k <= s@.len(),
            run_space_end(s@, j as nat) == run_space_end(s@, k as nat),
        decreases s@.len() - k,
    {
        k = k + 1;
    }
    k
}

fn exec_run_break(s: &Vec<char>, j: usize) -> (r: usize)
    requires
        j <= s@.len(),
    ensures
        r == run_break_end(s@, j as nat),
        j <= r <= s@.len(),
{
    let mut k = j;
    while k < s.len() && ch_break(s[k])
        invariant
            j <= k <= s@.len(),
            run_break_end(s@, j as nat) == run_break_end(s@, k as nat),
        decreases s@.len() - k,
    {
        k = k + 1;
    }
    k
}

fn exec_run_digit(s: &Vec<char>, j: usize) -> (r: usize)
    requires
        j <= s@.len(),
    ensures
        r == run_digit_end(s@, j as nat),
        j <= r <= s@.len(),
{
    let mut k = j;
    while k < s.len() && ch_digit(s[k])
        invariant
            j <= k <= s@.len(),
            run_digit_end(s@, j as nat) == run_digit_end(s@, k as nat),
        decreases s@.len() - k,
    {
        k = k + 1;
    }
    k
}

fn exec_is_id_start(c: char) -> (r: bool)
    ensures
        r == is_id_start_char(c),
{
    ('a' <= c && c <= 'z') || ('A' <= c && c <= 'Z') || c == '_' || c == '$'
}

fn exec_run_id(s: &Vec<char>, j: usize) -> (r: usize)
    requires
        j <= s@.len(),
    ensures
        r == run_id_end(s@, j as nat),
        j <= r <= s@.len(),
{
    let mut k = j;
    while k < s.len() && ch_id(s[k])
        invariant
            j <= k <= s@.len(),
            run_id_end(s@, j as nat) == run_id_end(s@, k as nat),
        decreases s@.len() - k,
    {
        k = k + 1;
    }
    k
}

fn exec_line_end(s: &Vec<char>, j: usize) -> (r: usize)
    requires
        j <= s@.len(),
    ensures
        r == line_end(s@, j as nat),
        j <= r <= s@.len(),
{
    let mut k = j;
    while k < s.len() && ch_not_break(s[k])
        invariant
            j <= k <= s@.len(),
            line_end(s@, j as nat) == line_end(s@, k as nat),
        decreases s@.len() - k,
    {
        k = k + 1;
    }
    k
}

// ---------------------------------------------------------------------------
// Keywords
// ---------------------------------------------------------------------------

pub open spec fn spec_kw(s: Seq<char>) -> Token {
    if s == seq!['i', 'f'] {
        Token::If
    } else if s == seq!['e', 'l', 's', 'e'] {
        Token::Else
    } else if s == seq!['w', 'h', 'i', 'l', 'e'] {
        Token::While
    } else if s == seq!['f', 'o', 'r'] {
        Token::For
    } else if s == seq!['t', 'r', 'u', 'e'] {
        Token::True
    } else if s == seq!['f', 'a', 'l', 's', 'e'] {
        Token::False
    } else if s == seq!['n', 'u', 'l', 'l'] {
        Token::Null
    } else if s == seq!['u', 'n', 'd', 'e', 'f', 'i', 'n', 'e', 'd'] {
        Token::Undefined
    } else if s == seq!['l', 'e', 't'] {
        Token::Let
    } else if s == seq!['f', 'n'] {
        Token::Fn
    } else if s == seq!['e', 'x', 't', 'e', 'r', 'n'] {
        Token::Extern
    } else {
        Token::Id
    }
}

/// The keyword table: the characters of each keyword beside its token.
fn keyword_list() -> (r: Vec<(Vec<char>, Token)>)
    ensures
        r@.len() == 11,
        r@.map_values(|e: (Vec<char>, Token)| (e.0@, e.1)) == seq![
            (seq!['i', 'f'], Token::If),
            (seq!['e', 'l', 's', 'e'], Token::Else),
            (seq!['w', 'h', 'i', 'l', 'e'], Token::While),
            (seq!['f', 'o', 'r'], Token::For),
            (seq!['t', 'r', 'u', 'e'], Token::True),
            (seq!['f', 'a', 'l', 's', 'e'], Token::False),
            (seq!['n', 'u', 'l', 'l'], Token::Null),
            (seq!['u', 'n', 'd', 'e', 'f', 'i', 'n', 'e', 'd'], Token::Undefined),
            (seq!['l', 'e', 't'], Token::Let),
            (seq!['f', 'n'], Token::Fn),
            (seq!['e', 'x', 't', 'e', 'r', 'n'], Token::Extern),
        ],
{
    let mut r: Vec<(Vec<char>, Token)> = Vec::new();
    let mut k: Vec<char> = Vec::new();
    k.push('i'); k.push('f');
    proof { assert(k@ =~= seq!['i', 'f']); }
    r.push((k, Token::If));
    let mut k: Vec<char> = Vec::new();
    k.push('e'); k.push('l'); k.push('s'); k.push('e');
    proof { assert(k@ =~= seq!['e', 'l', 's', 'e']); }
    r.push((k, Token::Else));
    let mut k: Vec<char> = Vec::new();
    k.push('w'); k.push('h'); k.push('i'); k.push('l'); k.push('e');
    proof { assert(k@ =~= seq!['w', 'h', 'i', 'l', 'e']); }
    r.push((k, Token::While));
    let mut k: Vec<char> = Vec::new();
    k.push('f'); k.push('o'); k.push('r');
    proof { assert(k@ =~= seq!['f', 'o', 'r']); }
    r.push((k, Token::For));
    let mut k: Vec<char> = Vec::new();
    k.push('t'); k.push('r'); k.push('u'); k.push('e');
    proof { assert(k@ =~= seq!['t', 'r', 'u', 'e']); }
    r.push((k, Token::True));
    let mut k: Vec<char> = Vec::new();
    k.push('f'); k.push('a'); k.push('l'); k.push('s'); k.push('e');
    proof { assert(k@ =~= seq!['f', 'a', 'l', 's', 'e']); }
    r.push((k, Token::False));
    let mut k: Vec<char> = Vec::new();
    k.push('n'); k.push('u'); k.push('l'); k.push('l');
    proof { assert(k@ =~= seq!['n', 'u', 'l', 'l']); }
    r.push((k, Token::Null));
    let mut k: Vec<char> = Vec::new();
    k.push('u'); k.push('n'); k.push('d'); k.push('e'); k.push('f');
    k.push('i'); k.push('n'); k.push('e'); k.push('d');
    proof { assert(k@ =~= seq!['u', 'n', 'd', 'e', 'f', 'i', 'n', 'e', 'd']); }
    r.push((k, Token::Undefined));
    let mut k: Vec<char> = Vec::new();
    k.push('l'); k.push('e'); k.push('t');
    proof { assert(k@ =~= seq!['l', 'e', 't']); }
    r.push((k, Token::Let));
    let mut k: Vec<char> = Vec::new();
    k.push('f'); k.push('n');
    proof { assert(k@ =~= seq!['f', 'n']); }
    r.push((k, Token::Fn));
    let mut k: Vec<char> = Vec::new();
    k.push('e'); k.push('x'); k.push('t'); k.push('e'); k.push('r'); k.push('n');
    proof { assert(k@ =~= seq!['e', 'x', 't', 'e', 'r', 'n']); }
    r.push((k, Token::Extern));
    proof {
        assert(r@.map_values(|e: (Vec<char>, Token)| (e.0@, e.1)) =~= seq![
            (seq!['i', 'f'], Token::If),
            (seq!['e', 'l', 's', 'e'], Token::Else),
            (seq!['w', 'h', 'i', 'l', 'e'], Token::While),
            (seq!['f', 'o', 'r'], Token::For),
            (seq!['t', 'r', 'u', 'e'], Token::True),
            (seq!['f', 'a', 'l', 's', 'e'], Token::False),
            (seq!['n', 'u', 'l', 'l'], Token::Null),
            (seq!['u', 'n', 'd', 'e', 'f', 'i', 'n', 'e', 'd'], Token::Undefined),
            (seq!['l', 'e', 't'], Token::Let),
            (seq!['f', 'n'], Token::Fn),
            (seq!['e', 'x', 't', 'e', 'r', 'n'], Token::Extern),
        ]);
    }
    r
}

/// Resolves an identifier's text to a keyword token, or `Id` when the text
/// is no keyword.  The keyword table is consulted after generic identifier
/// matching, as the lexeme precedence demands.
#[verifier::loop_isolation(false)]
fn kw_lookup(input: &Vec<char>, at: Span) -> (r: Token)
    requires
        at.wf(input@.len() as nat),
    ensures
        r == spec_kw(input@.subrange(at.start as int, at.end as int)),
{
    let kws = keyword_list();
    let ghost m = kws@.map_values(|e: (Vec<char>, Token)| (e.0@, e.1));
    let mut i: usize = 0;
    while i < 11
        invariant
            kws@.len() == 11,
            m == kws@.map_values(|e: (Vec<char>, Token)| (e.0@, e.1)),
            i <= 11,
            at.wf(input@.len() as nat),
            forall|j: int| 0 <= j < i ==>
                input@.subrange(at.start as int, at.end as int) != #[trigger] m[j].0,
        decreases 11 - i,
    {
        proof {
            assert(m[i as int] == (kws@[i as int].0@, kws@[i as int].1));
        }
        if crate::type_::char_range_eq(input, at, &kws[i].0) {
            proof {
                lemma_kw_table(m, i as int);
            }
            return kws[i].1;
        }
        i = i + 1;
    }
    proof {
        assert(m[0].0 == seq!['i', 'f']);
        assert(m[1].0 == seq!['e', 'l', 's', 'e']);
        assert(m[2].0 == seq!['w', 'h', 'i', 'l', 'e']);
        assert(m[3].0 == seq!['f', 'o', 'r']);
        assert(m[4].0 == seq!['t', 'r', 'u', 'e']);
        assert(m[5].0 == seq!['f', 'a', 'l', 's', 'e']);
        assert(m[6].0 == seq!['n', 'u', 'l', 'l']);
        assert(m[7].0 == seq!['u', 'n', 'd', 'e', 'f', 'i', 'n', 'e', 'd']);
        assert(m[8].0 == seq!['l', 'e', 't']);
        assert(m[9].0 == seq!['f', 'n']);
        assert(m[10].0 == seq!['e', 'x', 't', 'e', 'r', 'n']);
    }
    Token::Id
}


proof fn lemma_kw_table(m: Seq<(Seq<char>, Token)>, i: int)
    requires
        m == seq![
            (seq!['i', 'f'], Token::If),
            (seq!['e', 'l', 's', 'e'], Token::Else),
            (seq!['w', 'h', 'i', 'l', 'e'], Token::While),
            (seq!['f', 'o', 'r'], Token::For),
            (seq!['t', 'r', 'u', 'e'], Token::True),
            (seq!['f', 'a', 'l', 's', 'e'], Token::False),
            (seq!['n', 'u', 'l', 'l'], Token::Null),
            (seq!['u', 'n', 'd', 'e', 'f', 'i', 'n', 'e', 'd'], Token::Undefined),
            (seq!['l', 'e', 't'], Token::Let),
            (seq!['f', 'n'], Token::Fn),
            (seq!['e', 'x', 't', 'e', 'r', 'n'], Token::Extern),
        ],
        0 <= i < 11,
    ensures
        spec_kw(m[i].0) == m[i].1,
{
    assert(seq!['i', 'f'][1] == 'f');
    assert(seq!['f', 'n'][1] == 'n');
    assert(seq!['e', 'l', 's', 'e'][0] == 'e');
    assert(seq!['t', 'r', 'u', 'e'][0] == 't');
    assert(seq!['n', 'u', 'l', 'l'][0] == 'n');
    assert(seq!['w', 'h', 'i', 'l', 'e'][0] == 'w');
    assert(seq!['f', 'a', 'l', 's', 'e'][0] == 'f');
    assert(seq!['f', 'o', 'r'][0] == 'f');
    assert(seq!['l', 'e', 't'][0] == 'l');
    assert(seq!['i', 'f'].len() == 2);
    assert(seq!['e', 'l', 's', 'e'].len() == 4);
    assert(seq!['w', 'h', 'i', 'l', 'e'].len() == 5);
    assert(seq!['f', 'o', 'r'].len() == 3);
    assert(seq!['t', 'r', 'u', 'e'].len() == 4);
    assert(seq!['f', 'a', 'l', 's', 'e'].len() == 5);
    assert(seq!['n', 'u', 'l', 'l'].len() == 4);
    assert(seq!['u', 'n', 'd', 'e', 'f', 'i', 'n', 'e', 'd'].len() == 9);
    assert(seq!['l', 'e', 't'].len() == 3);
    assert(seq!['f', 'n'].len() == 2);
    assert(seq!['e', 'x', 't', 'e', 'r', 'n'].len() == 6);
}

// ---------------------------------------------------------------------------
// Numeric literals
// ---------------------------------------------------------------------------

/// The end of a numeric literal starting at `i`: a decimal integer part
/// (`0`, or a nonzero digit and a run of digits), an optional fraction and
/// an optional exponent.  The wider forms are accepted here and rejected
/// later by lowering.
pub open spec fn spec_number_end(s: Seq<char>, i: nat) -> nat
    recommends
        i < s.len(),
        is_digit_char(s[i as int]),
{
    let int_end: nat = if s[i as int] == '0' { (i + 1) as nat } else { run_digit_end(s, i + 1) };
    let frac_end: nat = if int_end + 1 < s.len() && s[int_end as int] == '.'
        && is_digit_char(s[int_end + 1 as int]) {
        run_digit_end(s, int_end + 2)
    } else {
        int_end
    };
    spec_exp_end(s, frac_end)
}

/// The end of an optional exponent part starting at `j`; when no complete
/// exponent follows, the literal ends at `j` itself.
pub open spec fn spec_exp_end(s: Seq<char>, j: nat) -> nat {
    if j < s.len() && (s[j as int] == 'e' || s[j as int] == 'E') {
        let k: nat = if j + 1 < s.len() && (s[j + 1 as int] == '+' || s[j + 1 as int] == '-') {
            (j + 2) as nat
        } else {
            (j + 1) as nat
        };
        if k < s.len() && is_digit_char(s[k as int]) {
            run_digit_end(s, k + 1)
        } else {
            j
        }
    } else {
        j
    }
}

fn exec_number_end(s: &Vec<char>, i: usize) -> (r: usize)
    requires
        i < s.len(),
        is_digit_char(s@[i as int]),
    ensures
        r == spec_number_end(s@, i as nat),
        i < r <= s@.len(),
{
    let int_end: usize = if s[i] == '0' { i + 1 } else { exec_run_digit(s, i + 1) };
    let frac_end: usize = if int_end < s.len() && s[int_end] == '.'
        && int_end + 1 < s.len() && ch_digit(s[int_end + 1]) {
        exec_run_digit(s, int_end + 2)
    } else {
        int_end
    };
    let r = if frac_end < s.len() && (s[frac_end] == 'e' || s[frac_end] == 'E') {
        let k: usize = if frac_end + 1 < s.len()
            && (s[frac_end + 1] == '+' || s[frac_end + 1] == '-') {
            frac_end + 2
        } else {
            frac_end + 1
        };
        if k < s.len() && ch_digit(s[k]) {
            exec_run_digit(s, k + 1)
        } else {
            frac_end
        }
    } else {
        frac_end
    };
    r
}

// ---------------------------------------------------------------------------
// Scanning one token
// ---------------------------------------------------------------------------

/// The token found at position `i` (with its end), chosen by the lexeme
/// precedence: comments, whitespace, identifiers and keywords, numbers,
/// punctuation (longest match first), line breaks.  `None` means the byte at
/// `i` starts no token.
pub open spec fn spec_scan(s: Seq<char>, i: nat) -> Option<(Token, nat)>
    recommends
        i < s.len(),
{
    let c = s[i as int];
    if i + 1 < s.len() && c == '/' && s[i + 1 as int] == '/' {
        Some((Token::Comment, line_end(s, i + 2)))
    } else if is_space_char(c) {
        Some((Token::Space, run_space_end(s, i + 1)))
    } else if is_id_start_char(c) {
        let e = run_id_end(s, i + 1);
        Some((spec_kw(s.subrange(i as int, e as int)), e))
    } else if is_digit_char(c) {
        Some((Token::Number, spec_number_end(s, i)))
    } else if i + 1 < s.len() && c == '<' && s[i + 1 as int] == '=' {
        Some((Token::LTE, (i + 2) as nat))
    } else if i + 1 < s.len() && c == '>' && s[i + 1 as int] == '=' {
        Some((Token::GTE, (i + 2) as nat))
    } else if i + 1 < s.len() && c == '=' && s[i + 1 as int] == '=' {
        Some((Token::EQ, (i + 2) as nat))
    } else if i + 1 < s.len() && c == '-' && s[i + 1 as int] == '>' {
        Some((Token::TypeArrow, (i + 2) as nat))
    } else if c == '+' {
        Some((Token::Add, (i + 1) as nat))
    } else if c == '-' {
        Some((Token::Sub, (i + 1) as nat))
    } else if c == '*' {
        Some((Token::Mul, (i + 1) as nat))
    } else if c == '/' {
        Some((Token::Div, (i + 1) as nat))
    } else if c == '<' {
        Some((Token::LT, (i + 1) as nat))
    } else if c == '>' {
        Some((Token::GT, (i + 1) as nat))
    } else if c == '=' {
        Some((Token::Assign, (i + 1) as nat))
    } else if c == '{' {
        Some((Token::OpenBrace, (i + 1) as nat))
    } else if c == '}' {
        Some((Token::CloseBrace, (i + 1) as nat))
    } else if c == '(' {
        Some((Token::OpenParen, (i + 1) as nat))
    } else if c == ')' {
        Some((Token::CloseParen, (i + 1) as nat))
    } else if c == '[' {
        Some((Token::OpenBracket, (i + 1) as nat))
    } else if c == ']' {
        Some((Token::CloseBracket, (i + 1) as nat))
    } else if c == ';' {
        Some((Token::Semicolon, (i + 1) as nat))
    } else if c == ':' {
        Some((Token::Colon, (i + 1) as nat))
    } else if c == ',' {
        Some((Token::Comma, (i + 1) as nat))
    } else if is_break_char(c) {
        Some((Token::LineBreak, run_break_end(s, i + 1)))
    } else {
        None
    }
}

pub proof fn lemma_scan_bounds(s: Seq<char>, i: nat)
    requires
        i < s.len(),
    ensures
        spec_scan(s, i) matches Some(te) ==> i < te.1 <= s.len(),
{
    lemma_run_space_bounds(s, i + 1);
    lemma_run_id_bounds(s, i + 1);
    lemma_run_break_bounds(s, i + 1);
    if i + 2 <= s.len() {
        lemma_line_end_bounds(s, i + 2);
    }
    if is_digit_char(s[i as int]) {
        let int_end: nat = if s[i as int] == '0' { (i + 1) as nat } else {
            run_digit_end(s, i + 1)
        };
        lemma_run_digit_bounds(s, i + 1);
        if int_end + 1 < s.len() && s[int_end as int] == '.' && is_digit_char(s[int_end + 1 as int]) {
            lemma_run_digit_bounds(s, int_end + 2);
        }
        let frac_end: nat = if int_end + 1 < s.len() && s[int_end as int] == '.'
            && is_digit_char(s[int_end + 1 as int]) {
            run_digit_end(s, int_end + 2)
        } else {
            int_end
        };
        if frac_end < s.len() && (s[frac_end as int] == 'e' || s[frac_end as int] == 'E') {
            let k: nat = if frac_end + 1 < s.len()
                && (s[frac_end + 1 as int] == '+' || s[frac_end + 1 as int] == '-') {
                (frac_end + 2) as nat
            } else {
                (frac_end + 1) as nat
            };
            if k < s.len() && is_digit_char(s[k as int]) {
                lemma_run_digit_bounds(s, k + 1);
            }
        }
    }
}

fn exec_scan(s: &Vec<char>, i: usize) -> (r: Option<(Token, usize)>)
    requires
        i < s.len(),
    ensures
        r matches Some(te) ==> spec_scan(s@, i as nat) == Some((te.0, te.1 as nat))
            && i < te.1 <= s@.len(),
        r is None ==> spec_scan(s@, i as nat) is None,
{
    proof {
        lemma_scan_bounds(s@, i as nat);
    }
    let c = s[i];
    if i + 1 < s.len() && c == '/' && s[i + 1] == '/' {
        Some((Token::Comment, exec_line_end(s, i + 2)))
    } else if c == ' ' || c == '\t' {
        Some((Token::Space, exec_run_space(s, i + 1)))
    } else if exec_is_id_start(c) {
        let e = exec_run_id(s, i + 1);
        Some((kw_lookup(s, Span { start: i, end: e }), e))
    } else if '0' <= c && c <= '9' {
        Some((Token::Number, exec_number_end(s, i)))
    } else if i + 1 < s.len() && c == '<' && s[i + 1] == '=' {
        Some((Token::LTE, i + 2))
    } else if i + 1 < s.len() && c == '>' && s[i + 1] == '=' {
        Some((Token::GTE, i + 2))
    } else if i + 1 < s.len() && c == '=' && s[i + 1] == '=' {
        Some((Token::EQ, i + 2))
    } else if i + 1 < s.len() && c == '-' && s[i + 1] == '>' {
        Some((Token::TypeArrow, i + 2))
    } else if c == '+' {
        Some((Token::Add, i + 1))
    } else if c == '-' {
        Some((Token::Sub, i + 1))
    } else if c == '*' {
        Some((Token::Mul, i + 1))
    } else if c == '/' {
        Some((Token::Div, i + 1))
    } else if c == '<' {
        Some((Token::LT, i + 1))
    } else if c == '>' {
        Some((Token::GT, i + 1))
    } else if c == '=' {
        Some((Token::Assign, i + 1))
    } else if c == '{' {
        Some((Token::OpenBrace, i + 1))
    } else if c == '}' {
        Some((Token::CloseBrace, i + 1))
    } else if c == '(' {
        Some((Token::OpenParen, i + 1))
    } else if c == ')' {
        Some((Token::CloseParen, i + 1))
    } else if c == '[' {
        Some((Token::OpenBracket, i + 1))
    } else if c == ']' {
        Some((Token::CloseBracket, i + 1))
    } else if c == ';' {
        Some((Token::Semicolon, i + 1))
    } else if c == ':' {
        Some((Token::Colon, i + 1))
    } else if c == ',' {
        Some((Token::Comma, i + 1))
    } else if c == '\r' || c == '\n' {
        Some((Token::LineBreak, exec_run_break(s, i + 1)))
    } else {
        None
    }
}

// ---------------------------------------------------------------------------
// The whole stream
// ---------------------------------------------------------------------------

/// The token stream from position `i` to the end of the input, ending with
/// the `EOF` token.  Meaningful only when no scan from `i` onward fails,
/// which `spec_lex_fail` rules out.
pub open spec fn spec_tokens(s: Seq<char>, i: nat) -> Seq<Tok>
    decreases s.len() - i,
{
    if i >= s.len() {
        seq![Tok { token: Token::EOF, span: Span { start: s.len() as usize, end: s.len() as usize } }]
    } else {
        match spec_scan(s, i) {
            None => seq![],
            Some((t, e)) => {
                if i < e <= s.len() {
                    seq![Tok { token: t, span: Span { start: i as usize, end: e as usize } }]
                        + spec_tokens(s, e)
                } else {
                    seq![]
                }
            },
        }
    }
}

/// The position where lexing fails, if it does: the first position, in scan
/// order from `i`, whose character starts no token.
pub open spec fn spec_lex_fail(s: Seq<char>, i: nat) -> Option<nat>
    decreases s.len() - i,
{
    if i >= s.len() {
        None
    } else {
        match spec_scan(s, i) {
            None => Some(i),
            Some((t, e)) => {
                if i < e <= s.len() {
                    spec_lex_fail(s, e)
                } else {
                    Some(i)
                }
            },
        }
    }
}

/// Tokenizes the whole input.  On success the tokens cover the input with no
/// gaps, in scan order, ending with `EOF`; on failure the error points at the
/// first unrecognizable character.
pub fn tokenize(input: &Vec<char>) -> (r: Result<Vec<Tok>, Error>)
    ensures
        r matches Ok(toks) ==> spec_lex_fail(input@, 0) is None
            && toks@ == spec_tokens(input@, 0),
        r matches Err(e) ==> (spec_lex_fail(input@, 0) matches Some(p)
            && e == Error::ParseError(Span { start: p as usize, end: (p + 1) as usize })),
{
    let mut toks: Vec<Tok> = Vec::new();
    let mut i: usize = 0;
    while i < input.len()
        invariant
            i <= input@.len(),
            spec_lex_fail(input@, 0) == spec_lex_fail(input@, i as nat),
            spec_tokens(input@, 0) == toks@ + spec_tokens(input@, i as nat),
        decreases input@.len() - i,
    {
        match exec_scan(input, i) {
            None => {
                return Err(Error::ParseError(Span { start: i, end: i + 1 }));
            },
            Some((t, e)) => {
                let ghost old_toks = toks@;
                toks.push(Tok { token: t, span: Span { start: i, end: e } });
                proof {
                    assert(spec_tokens(input@, i as nat) =~= seq![
                        Tok { token: t, span: Span { start: i, end: e } }
                    ] + spec_tokens(input@, e as nat));
                    assert(old_toks + spec_tokens(input@, i as nat) =~= toks@ + spec_tokens(
                        input@, e as nat));
                }
                i = e;
            },
        }
    }
    toks.push(Tok {
        token: Token::eof(),
        span: Span { start: input.len(), end: input.len() },
    });
    proof {
        assert(spec_tokens(input@, i as nat) =~= seq![
            Tok { token: Token::EOF, span: Span { start: input@.len() as usize, end: input@.len() as usize } }
        ]);
        assert(spec_tokens(input@, 0) =~= toks@);
    }
    Ok(toks)
}

/// The structural tokens of a stream, in order: what the parser consumes.
pub open spec fn spec_structural_of(s: Seq<Tok>) -> Seq<Tok>
    decreases s.len(),
{
    if s.len() == 0 {
        seq![]
    } else {
        if spec_structural(s[0].token) {
            seq![s[0]] + spec_structural_of(s.drop_first())
        } else {
            spec_structural_of(s.drop_first())
        }
    }
}

/// Drops whitespace, line breaks and comments from a token stream.
pub fn filter_structural(toks: &Vec<Tok>) -> (r: Vec<Tok>)
    ensures
        r@ == spec_structural_of(toks@),
{
    let mut r: Vec<Tok> = Vec::new();
    let mut i: usize = 0;
    proof {
        assert(toks@.skip(0) =~= toks@);
    }
    while i < toks.len()
        invariant
            i <= toks@.len(),
            spec_structural_of(toks@) == r@ + spec_structural_of(toks@.skip(i as int)),
        decreases toks@.len() - i,
    {
        let ghost old_r = r@;
        let t = toks[i];
        if t.token.is_structural() {
            r.push(t);
        }
        proof {
            let rest = toks@.skip(i as int);
            assert(rest[0] == toks@[i as int]);
            assert(rest.drop_first() =~= toks@.skip(i + 1));
            if spec_structural(toks@[i as int].token) {
                assert(spec_structural_of(rest) =~= seq![toks@[i as int]]
                    + spec_structural_of(toks@.skip(i + 1)));
                assert(old_r + spec_structural_of(rest) =~= r@ + spec_structural_of(
                    toks@.skip(i + 1)));
            } else {
                assert(spec_structural_of(rest) =~= spec_structural_of(toks@.skip(i + 1)));
            }
        }
        i = i + 1;
    }
    proof {
        assert(toks@.skip(toks@.len() as int) =~= Seq::<Tok>::empty());
        assert(spec_structural_of(toks@) =~= r@);
    }
    r
}

} // verus!
