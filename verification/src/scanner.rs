//! Lexical scanning of pattern syntax.
//!
//! The scanner turns a sequence of Unicode codepoints into a stream of
//! tokens, one per call to [`Scanner::scan_next`], resolving escape
//! sequences and built-in character classes inline.  The function
//! [`spec_scan`] is the specification of the whole lexical grammar: it maps
//! a codepoint sequence and a cursor position to the token produced there
//! and the position of the next token.

use vstd::prelude::*;

verus! {

/// The syntactic role of a token.
#[derive(Clone, Copy, Debug, PartialEq, Eq, Structural)]
pub enum TokenType {
    Error,
    Character,
    Union,
    Star,
    LParen,
    RParen,
    LBracket,
    RBracket,
    Caret,
    Question,
    Plus,
    Range,
    EOF,
}

/// An inclusive codepoint interval; `negate` flips the membership test.
#[derive(Clone, Copy, Debug, PartialEq, Eq, Structural)]
pub struct CharRange {
    pub min: u32,
    pub max: u32,
    pub negate: bool,
}

/// Whether codepoint `c` is accepted by the range `r`.
pub open spec fn spec_includes(r: CharRange, c: char) -> bool {
    if !r.negate {
        r.min <= c as u32 && c as u32 <= r.max
    } else {
        (c as u32) < r.min || (c as u32) > r.max
    }
}

impl CharRange {
    pub fn new(min: u32, max: u32, negate: bool) -> (r: Self)
        ensures
            r == (CharRange { min, max, negate }),
    {
        CharRange { min, max, negate }
    }

    /// Membership test: inside `[min, max]`, inverted when `negate` is set.
    pub fn includes_char(&self, c: char) -> (r: bool)
        ensures
            r == spec_includes(*self, c),
    {
        let u = c as u32;
        if !self.negate {
            u >= self.min && u <= self.max
        } else {
            u < self.min || u > self.max
        }
    }
}

/// The mathematical image of a [`Token`]: its role, its resolved
/// codepoint, and the character ranges it carries.
#[verifier::ext_equal]
pub ghost struct SpecTok {
    pub t_type: TokenType,
    pub image: char,
    pub ranges: Seq<CharRange>,
}

/// A token with any role other than `Range` carries this placeholder range
/// list, which no consumer reads.
pub open spec fn placeholder_ranges() -> Seq<CharRange> {
    seq![CharRange { min: 0, max: 0, negate: true }]
}

pub open spec fn simple_tok(t_type: TokenType, image: char) -> SpecTok {
    SpecTok { t_type, image, ranges: placeholder_ranges() }
}

pub open spec fn range_tok(image: char, ranges: Seq<CharRange>) -> SpecTok {
    SpecTok { t_type: TokenType::Range, image, ranges }
}

/// The scanner's output unit.
pub struct Token {
    pub t_type: TokenType,
    pub image: char,
    pub range: Vec<CharRange>,
}

impl View for Token {
    type V = SpecTok;

    open spec fn view(&self) -> SpecTok {
        SpecTok { t_type: self.t_type, image: self.image, ranges: self.range@ }
    }
}

impl Token {
    pub fn new(t_type: TokenType, image: char) -> (t: Self)
        ensures
            t@ == simple_tok(t_type, image),
    {
        let t = Token { t_type, image, range: vec![CharRange::new(0x0000, 0x0000, true)] };
        proof {
            assert(t@ =~= simple_tok(t_type, image));
        }
        t
    }
}

// ---------------------------------------------------------------------------
// Built-in character classes.
//
// The Perl-style classes cover ASCII ranges only; the whitespace class is
// the control range U+000A..U+000D and deliberately has no space or tab.
// ---------------------------------------------------------------------------

pub open spec fn digit_ranges() -> Seq<CharRange> {
    seq![CharRange { min: '0' as u32, max: '9' as u32, negate: false }]
}

pub open spec fn not_digit_ranges() -> Seq<CharRange> {
    seq![CharRange { min: '0' as u32, max: '9' as u32, negate: true }]
}

pub open spec fn word_ranges() -> Seq<CharRange> {
    seq![
        CharRange { min: 'a' as u32, max: 'z' as u32, negate: false },
        CharRange { min: 'A' as u32, max: 'Z' as u32, negate: false },
        CharRange { min: '0' as u32, max: '9' as u32, negate: false },
        CharRange { min: '_' as u32, max: '_' as u32, negate: false },
    ]
}

pub open spec fn not_word_ranges() -> Seq<CharRange> {
    seq![
        CharRange { min: 'a' as u32, max: 'z' as u32, negate: true },
        CharRange { min: 'A' as u32, max: 'Z' as u32, negate: true },
        CharRange { min: '0' as u32, max: '9' as u32, negate: true },
        CharRange { min: '_' as u32, max: '_' as u32, negate: true },
    ]
}

pub open spec fn whitespace_ranges() -> Seq<CharRange> {
    seq![CharRange { min: 0x000A, max: 0x000D, negate: false }]
}

pub open spec fn not_whitespace_ranges() -> Seq<CharRange> {
    seq![CharRange { min: 0x000A, max: 0x000D, negate: true }]
}

pub open spec fn not_newline_ranges() -> Seq<CharRange> {
    seq![CharRange { min: '\n' as u32, max: '\n' as u32, negate: true }]
}

/// The wildcard `.` matches one codepoint in U+0000..U+FFFF, the ceiling
/// this engine chooses for the wildcard.
pub open spec fn wildcard_ranges() -> Seq<CharRange> {
    seq![CharRange { min: 0x0000, max: 0xFFFF, negate: false }]
}

// ---------------------------------------------------------------------------
// Character predicates for escape decoding.
// ---------------------------------------------------------------------------

pub open spec fn spec_is_dec_digit(c: char) -> bool {
    '0' as u32 <= c as u32 && c as u32 <= '9' as u32
}

/// Hexadecimal digits are the ten digits and the lower-case letters `a`-`f`.
pub open spec fn spec_is_hex_digit(c: char) -> bool {
    spec_is_dec_digit(c) || ('a' as u32 <= c as u32 && c as u32 <= 'f' as u32)
}

/// The numeric value of a hex digit; any other character maps to 0.
pub open spec fn spec_hex_val(c: char) -> u32 {
    if spec_is_dec_digit(c) {
        (c as u32 - '0' as u32) as u32
    } else if 'a' as u32 <= c as u32 && c as u32 <= 'f' as u32 {
        (c as u32 - 'a' as u32 + 10) as u32
    } else {
        0
    }
}

/// A Unicode scalar value: anything below the surrogate block, or between
/// the end of the surrogate block and U+10FFFF.
pub open spec fn spec_is_scalar(u: u32) -> bool {
    u < 0xD800 || (0xE000 <= u && u <= 0x10FFFF)
}

// ---------------------------------------------------------------------------
// The lexical grammar.
// ---------------------------------------------------------------------------

/// Is position `q` a hex digit inside the input?
pub open spec fn hex_at(cs: Seq<char>, q: int) -> bool {
    0 <= q < cs.len() && spec_is_hex_digit(cs[q])
}

/// Is position `q` a decimal digit inside the input?
pub open spec fn dec_at(cs: Seq<char>, q: int) -> bool {
    0 <= q < cs.len() && spec_is_dec_digit(cs[q])
}

/// The character at `q`, or `'\0'` when `q` is past the end.
pub open spec fn char_or_nul(cs: Seq<char>, q: int) -> char {
    if 0 <= q < cs.len() {
        cs[q]
    } else {
        '\0'
    }
}

/// The cursor never moves past the end of the input: advancing from `q`
/// stops at `cs.len()`.
pub open spec fn adv(cs: Seq<char>, q: int) -> int {
    if q < cs.len() {
        q + 1
    } else {
        cs.len() as int
    }
}

/// A `\uXXXX` escape at `p` (`cs[p] == '\\'`, `cs[p+1] == 'u'`): exactly
/// four hex digits decode a Unicode scalar; a non-digit or a surrogate
/// value is a lexical error.
pub open spec fn spec_scan_unicode(cs: Seq<char>, p: int) -> (SpecTok, int) {
    if !hex_at(cs, p + 2) {
        (simple_tok(TokenType::Error, char_or_nul(cs, p + 2)), adv(cs, p + 2))
    } else if !hex_at(cs, p + 3) {
        (simple_tok(TokenType::Error, char_or_nul(cs, p + 3)), adv(cs, p + 3))
    } else if !hex_at(cs, p + 4) {
        (simple_tok(TokenType::Error, char_or_nul(cs, p + 4)), adv(cs, p + 4))
    } else if !hex_at(cs, p + 5) {
        (simple_tok(TokenType::Error, char_or_nul(cs, p + 5)), adv(cs, p + 5))
    } else {
        let code = (spec_hex_val(cs[p + 2]) * 0x1000 + spec_hex_val(cs[p + 3]) * 0x100
            + spec_hex_val(cs[p + 4]) * 0x10 + spec_hex_val(cs[p + 5])) as u32;
        if spec_is_scalar(code) {
            (simple_tok(TokenType::Character, code as char), p + 6)
        } else {
            (simple_tok(TokenType::Error, '\0'), p + 6)
        }
    }
}

/// A `\xHH` escape at `p`: up to two hex digits decode an ASCII byte,
/// stopping early on a non-digit or when the value would pass 127.
pub open spec fn spec_scan_ascii_hex(cs: Seq<char>, p: int) -> (SpecTok, int) {
    if !hex_at(cs, p + 2) {
        (simple_tok(TokenType::Character, '\0'), p + 2)
    } else {
        let v1 = spec_hex_val(cs[p + 2]);
        if !hex_at(cs, p + 3) {
            (simple_tok(TokenType::Character, v1 as char), p + 3)
        } else {
            let v2 = (v1 * 16 + spec_hex_val(cs[p + 3])) as u32;
            if v2 > 127 {
                (simple_tok(TokenType::Character, v1 as char), p + 3)
            } else {
                (simple_tok(TokenType::Character, v2 as char), p + 4)
            }
        }
    }
}

/// A `\DDD` escape at `p` (`cs[p+1]` is a decimal digit): up to three
/// decimal digits decode an ASCII byte, stopping early on a non-digit or
/// when the value would pass 127.
pub open spec fn spec_scan_ascii_dec(cs: Seq<char>, p: int) -> (SpecTok, int) {
    let v1 = spec_hex_val(cs[p + 1]);
    if !dec_at(cs, p + 2) {
        (simple_tok(TokenType::Character, v1 as char), p + 2)
    } else {
        let v2 = (v1 * 10 + spec_hex_val(cs[p + 2])) as u32;
        if !dec_at(cs, p + 3) {
            (simple_tok(TokenType::Character, v2 as char), p + 3)
        } else {
            let v3 = (v2 * 10 + spec_hex_val(cs[p + 3])) as u32;
            if v3 > 127 {
                (simple_tok(TokenType::Character, v2 as char), p + 3)
            } else {
                (simple_tok(TokenType::Character, v3 as char), p + 4)
            }
        }
    }
}

/// An escape sequence at `p` (`cs[p] == '\\'`): a control-character
/// letter, a codepoint escape, a Perl class, or — permissively — the
/// escaped character itself.
pub open spec fn spec_scan_escape(cs: Seq<char>, p: int) -> (SpecTok, int) {
    if p + 1 >= cs.len() {
        (simple_tok(TokenType::Error, '\0'), p + 1)
    } else {
        let e = cs[p + 1];
        if e == 't' {
            (simple_tok(TokenType::Character, '\t'), p + 2)
        } else if e == 'n' {
            (simple_tok(TokenType::Character, '\n'), p + 2)
        } else if e == 'v' {
            (simple_tok(TokenType::Character, '\x0b'), p + 2)
        } else if e == 'f' {
            (simple_tok(TokenType::Character, '\x0c'), p + 2)
        } else if e == 'r' {
            (simple_tok(TokenType::Character, '\r'), p + 2)
        } else if e == 'u' {
            spec_scan_unicode(cs, p)
        } else if e == 'x' {
            spec_scan_ascii_hex(cs, p)
        } else if spec_is_dec_digit(e) {
            spec_scan_ascii_dec(cs, p)
        } else if e == 'd' {
            (range_tok('\0', digit_ranges()), p + 2)
        } else if e == 'D' {
            (range_tok('\0', not_digit_ranges()), p + 2)
        } else if e == 'w' {
            (range_tok('\0', word_ranges()), p + 2)
        } else if e == 'W' {
            (range_tok('\0', not_word_ranges()), p + 2)
        } else if e == 's' {
            (range_tok('\0', whitespace_ranges()), p + 2)
        } else if e == 'S' {
            (range_tok('\0', not_whitespace_ranges()), p + 2)
        } else if e == 'N' {
            (range_tok('\0', not_newline_ranges()), p + 2)
        } else {
            (simple_tok(TokenType::Character, e), p + 2)
        }
    }
}

/// The lexical grammar: the token starting at position `p` and the
/// position of the token after it.  Past the end of the input the scanner
/// yields `EOF` forever, without moving.
pub open spec fn spec_scan(cs: Seq<char>, p: int) -> (SpecTok, int) {
    if 0 <= p < cs.len() {
        let c = cs[p];
        if c == '|' {
            (simple_tok(TokenType::Union, c), p + 1)
        } else if c == '*' {
            (simple_tok(TokenType::Star, c), p + 1)
        } else if c == '(' {
            (simple_tok(TokenType::LParen, c), p + 1)
        } else if c == ')' {
            (simple_tok(TokenType::RParen, c), p + 1)
        } else if c == '[' {
            (simple_tok(TokenType::LBracket, c), p + 1)
        } else if c == ']' {
            (simple_tok(TokenType::RBracket, c), p + 1)
        } else if c == '^' {
            (simple_tok(TokenType::Caret, c), p + 1)
        } else if c == '?' {
            (simple_tok(TokenType::Question, c), p + 1)
        } else if c == '+' {
            (simple_tok(TokenType::Plus, c), p + 1)
        } else if c == '.' {
            (range_tok(c, wildcard_ranges()), p + 1)
        } else if c == '\\' {
            spec_scan_escape(cs, p)
        } else {
            (simple_tok(TokenType::Character, c), p + 1)
        }
    } else {
        (simple_tok(TokenType::EOF, '\0'), p)
    }
}

/// Scanning a token inside the input always advances, and never moves the
/// cursor past the end.
pub proof fn lemma_spec_scan_bounds(cs: Seq<char>, p: int)
    requires
        0 <= p < cs.len(),
    ensures
        p < spec_scan(cs, p).1 <= cs.len(),
        spec_scan(cs, p).0.t_type != TokenType::EOF,
{
}

// ---------------------------------------------------------------------------
// The executable scanner.
// ---------------------------------------------------------------------------

/// Relies on `char::from_u32` of core: it returns the character with the
/// given scalar value, and `None` exactly for surrogates and values above
/// U+10FFFF.
pub assume_specification[ char::from_u32 ](i: u32) -> (r: Option<char>)
    ensures
        r is Some <==> spec_is_scalar(i),
        r is Some ==> r->0 as u32 == i,
;

fn char_to_hex(h: char) -> (v: u32)
    ensures
        v == spec_hex_val(h),
{
    let u = h as u32;
    if u >= '0' as u32 && u <= '9' as u32 {
        u - '0' as u32
    } else if u >= 'a' as u32 && u <= 'f' as u32 {
        u - 'a' as u32 + 10
    } else {
        0
    }
}

fn is_dec_digit(c: char) -> (b: bool)
    ensures
        b == spec_is_dec_digit(c),
{
    let u = c as u32;
    u >= '0' as u32 && u <= '9' as u32
}

fn is_hex_digit(c: char) -> (b: bool)
    ensures
        b == spec_is_hex_digit(c),
{
    let u = c as u32;
    (u >= '0' as u32 && u <= '9' as u32) || (u >= 'a' as u32 && u <= 'f' as u32)
}

fn digit_class() -> (v: Vec<CharRange>)
    ensures
        v@ == digit_ranges(),
{
    let v = vec![CharRange::new('0' as u32, '9' as u32, false)];
    proof {
        assert(v@ =~= digit_ranges());
    }
    v
}

fn not_digit_class() -> (v: Vec<CharRange>)
    ensures
        v@ == not_digit_ranges(),
{
    let v = vec![CharRange::new('0' as u32, '9' as u32, true)];
    proof {
        assert(v@ =~= not_digit_ranges());
    }
    v
}

fn word_class() -> (v: Vec<CharRange>)
    ensures
        v@ == word_ranges(),
{
    let v = vec![
        CharRange::new('a' as u32, 'z' as u32, false),
        CharRange::new('A' as u32, 'Z' as u32, false),
        CharRange::new('0' as u32, '9' as u32, false),
        CharRange::new('_' as u32, '_' as u32, false),
    ];
    proof {
        assert(v@ =~= word_ranges());
    }
    v
}

fn not_word_class() -> (v: Vec<CharRange>)
    ensures
        v@ == not_word_ranges(),
{
    let v = vec![
        CharRange::new('a' as u32, 'z' as u32, true),
        CharRange::new('A' as u32, 'Z' as u32, true),
        CharRange::new('0' as u32, '9' as u32, true),
        CharRange::new('_' as u32, '_' as u32, true),
    ];
    proof {
        assert(v@ =~= not_word_ranges());
    }
    v
}

fn whitespace_class() -> (v: Vec<CharRange>)
    ensures
        v@ == whitespace_ranges(),
{
    let v = vec![CharRange::new(0x000A, 0x000D, false)];
    proof {
        assert(v@ =~= whitespace_ranges());
    }
    v
}

fn not_whitespace_class() -> (v: Vec<CharRange>)
    ensures
        v@ == not_whitespace_ranges(),
{
    let v = vec![CharRange::new(0x000A, 0x000D, true)];
    proof {
        assert(v@ =~= not_whitespace_ranges());
    }
    v
}

fn not_newline_class() -> (v: Vec<CharRange>)
    ensures
        v@ == not_newline_ranges(),
{
    let v = vec![CharRange::new('\n' as u32, '\n' as u32, true)];
    proof {
        assert(v@ =~= not_newline_ranges());
    }
    v
}

fn range_token(image: char, range: Vec<CharRange>) -> (t: Token)
    ensures
        t@ == range_tok(image, range@),
{
    let t = Token { t_type: TokenType::Range, image, range };
    proof {
        assert(t@ =~= range_tok(t.image, t.range@));
    }
    t
}

/// Converts a string to the codepoint vector the engine walks.
pub(crate) fn collect_chars(input: &str) -> (v: Vec<char>)
    ensures
        v@ == input@,
{
    broadcast use vstd::string::axiom_spec_iter, vstd::string::next_postcondition;

    let mut v: Vec<char> = Vec::new();
    let mut it = input.chars();
    loop
        invariant
            vstd::std_specs::iter::IteratorSpec::obeys_prophetic_iter_laws(&it),
            v@ + vstd::std_specs::iter::IteratorSpec::remaining(&it) == input@,
        decreases input@.len() - v@.len(),
    {
        match it.next() {
            Some(c) => {
                v.push(c);
            },
            None => {
                proof {
                    assert(v@ =~= input@);
                }
                return v;
            },
        }
    }
}

/// The scanner: a codepoint cursor over the pattern.
pub struct Scanner {
    chars: Vec<char>,
    index: usize,
}

impl Scanner {
    /// The codepoints being scanned.
    pub closed spec fn spec_chars(&self) -> Seq<char> {
        self.chars@
    }

    /// The cursor: the position the next token starts at.
    pub closed spec fn spec_index(&self) -> int {
        self.index as int
    }

    /// The cursor stays inside `0 ..= len`.
    pub closed spec fn wf(&self) -> bool {
        0 <= self.index <= self.chars@.len()
    }

    pub fn new(input: &String) -> (s: Self)
        ensures
            s.wf(),
            s.spec_chars() == input@,
            s.spec_index() == 0,
    {
        Scanner { chars: collect_chars(input.as_str()), index: 0 }
    }

    /// Produces the token at the cursor and advances past it; at the end
    /// of the input it produces `EOF` without moving.
    pub fn scan_next(&mut self) -> (t: Token)
        requires
            old(self).wf(),
        ensures
            final(self).wf(),
            final(self).spec_chars() == old(self).spec_chars(),
            t@ == spec_scan(old(self).spec_chars(), old(self).spec_index()).0,
            final(self).spec_index() == spec_scan(old(self).spec_chars(), old(self).spec_index()).1,
    {
        if self.index >= self.chars.len() {
            return Token::new(TokenType::EOF, '\0');
        }
        let c = self.chars[self.index];
        let t = self.char_to_token(c);
        self.index = self.index + 1;
        t
    }

    /// Maps the cursor codepoint to its token, leaving the cursor one
    /// position short of the next token for `scan_next` to finish.
    fn char_to_token(&mut self, c: char) -> (t: Token)
        requires
            old(self).wf(),
            old(self).spec_index() < old(self).spec_chars().len(),
            c == old(self).spec_chars()[old(self).spec_index()],
        ensures
            final(self).wf(),
            final(self).spec_chars() == old(self).spec_chars(),
            t@ == spec_scan(old(self).spec_chars(), old(self).spec_index()).0,
            final(self).spec_index() + 1 == spec_scan(old(self).spec_chars(), old(self).spec_index()).1,
    {
        match c {
            '|' => Token::new(TokenType::Union, c),
            '*' => Token::new(TokenType::Star, c),
            '(' => Token::new(TokenType::LParen, c),
            ')' => Token::new(TokenType::RParen, c),
            '[' => Token::new(TokenType::LBracket, c),
            ']' => Token::new(TokenType::RBracket, c),
            '^' => Token::new(TokenType::Caret, c),
            '?' => Token::new(TokenType::Question, c),
            '+' => Token::new(TokenType::Plus, c),
            '.' => range_token(c, vec![CharRange::new(0x0000, 0xFFFF, false)]),
            '\\' => self.handle_escape(),
            _ => Token::new(TokenType::Character, c),
        }
    }

    /// Decodes the escape sequence starting at the cursor (which points at
    /// the backslash).
    fn handle_escape(&mut self) -> (t: Token)
        requires
            old(self).wf(),
            old(self).spec_index() < old(self).spec_chars().len(),
            old(self).spec_chars()[old(self).spec_index()] == '\\',
        ensures
            final(self).wf(),
            final(self).spec_chars() == old(self).spec_chars(),
            t@ == spec_scan_escape(old(self).spec_chars(), old(self).spec_index()).0,
            final(self).spec_index() + 1 == spec_scan_escape(
                old(self).spec_chars(),
                old(self).spec_index(),
            ).1,
    {
        let p = self.index;
        let n = self.chars.len();
        if n - p <= 1 {
            // A backslash as the last codepoint: nothing follows to escape.
            return Token::new(TokenType::Error, '\0');
        }
        let e = self.chars[p + 1];
        match e {
            't' => {
                self.index = p + 1;
                Token::new(TokenType::Character, '\t')
            },
            'n' => {
                self.index = p + 1;
                Token::new(TokenType::Character, '\n')
            },
            'v' => {
                self.index = p + 1;
                Token::new(TokenType::Character, '\x0b')
            },
            'f' => {
                self.index = p + 1;
                Token::new(TokenType::Character, '\x0c')
            },
            'r' => {
                self.index = p + 1;
                Token::new(TokenType::Character, '\r')
            },
            'u' => self.handle_unicode_escape(),
            'x' => self.handle_ascii_hex_escape(),
            'd' => {
                self.index = p + 1;
                range_token('\0', digit_class())
            },
            'D' => {
                self.index = p + 1;
                range_token('\0', not_digit_class())
            },
            'w' => {
                self.index = p + 1;
                range_token('\0', word_class())
            },
            'W' => {
                self.index = p + 1;
                range_token('\0', not_word_class())
            },
            's' => {
                self.index = p + 1;
                range_token('\0', whitespace_class())
            },
            'S' => {
                self.index = p + 1;
                range_token('\0', not_whitespace_class())
            },
            'N' => {
                self.index = p + 1;
                range_token('\0', not_newline_class())
            },
            _ => {
                if is_dec_digit(e) {
                    self.handle_ascii_dec_escape()
                } else {
                    self.index = p + 1;
                    Token::new(TokenType::Character, e)
                }
            },
        }
    }

    /// Decodes `\uXXXX`: exactly four hex digits naming a Unicode scalar.
    fn handle_unicode_escape(&mut self) -> (t: Token)
        requires
            old(self).wf(),
            old(self).spec_index() + 1 < old(self).spec_chars().len(),
            old(self).spec_chars()[old(self).spec_index()] == '\\',
            old(self).spec_chars()[old(self).spec_index() + 1] == 'u',
        ensures
            final(self).wf(),
            final(self).spec_chars() == old(self).spec_chars(),
            t@ == spec_scan_unicode(old(self).spec_chars(), old(self).spec_index()).0,
            final(self).spec_index() + 1 == spec_scan_unicode(
                old(self).spec_chars(),
                old(self).spec_index(),
            ).1,
    {
        let p = self.index;
        let n = self.chars.len();
        if n - p <= 2 || !is_hex_digit(self.chars[p + 2]) {
            return self.unicode_error_at(2);
        }
        if n - p <= 3 || !is_hex_digit(self.chars[p + 3]) {
            return self.unicode_error_at(3);
        }
        if n - p <= 4 || !is_hex_digit(self.chars[p + 4]) {
            return self.unicode_error_at(4);
        }
        if n - p <= 5 || !is_hex_digit(self.chars[p + 5]) {
            return self.unicode_error_at(5);
        }
        let code = char_to_hex(self.chars[p + 2]) * 0x1000 + char_to_hex(self.chars[p + 3]) * 0x100
            + char_to_hex(self.chars[p + 4]) * 0x10 + char_to_hex(self.chars[p + 5]);
        self.index = p + 5;
        match char::from_u32(code) {
            Some(u) => {
                proof {
                    vstd::utf8::char_u32_cast(u, code);
                }
                Token::new(TokenType::Character, u)
            },
            None => Token::new(TokenType::Error, '\0'),
        }
    }

    /// A malformed `\u` escape: an `Error` token carrying the offending
    /// character (or `'\0'` past the end), with the cursor left on it.
    fn unicode_error_at(&mut self, k: usize) -> (t: Token)
        requires
            old(self).wf(),
            2 <= k <= 5,
            old(self).spec_index() < old(self).spec_chars().len(),
        ensures
            final(self).wf(),
            final(self).spec_chars() == old(self).spec_chars(),
            t@ == simple_tok(
                TokenType::Error,
                char_or_nul(old(self).spec_chars(), old(self).spec_index() + k),
            ),
            final(self).spec_index() + 1 == adv(
                old(self).spec_chars(),
                old(self).spec_index() + k,
            ),
    {
        let p = self.index;
        let n = self.chars.len();
        if n - p > k {
            let c = self.chars[p + k];
            self.index = p + k;
            Token::new(TokenType::Error, c)
        } else {
            self.index = n - 1;
            Token::new(TokenType::Error, '\0')
        }
    }

    /// Decodes `\xHH`: up to two hex digits naming an ASCII byte.
    fn handle_ascii_hex_escape(&mut self) -> (t: Token)
        requires
            old(self).wf(),
            old(self).spec_index() + 1 < old(self).spec_chars().len(),
            old(self).spec_chars()[old(self).spec_index()] == '\\',
            old(self).spec_chars()[old(self).spec_index() + 1] == 'x',
        ensures
            final(self).wf(),
            final(self).spec_chars() == old(self).spec_chars(),
            t@ == spec_scan_ascii_hex(old(self).spec_chars(), old(self).spec_index()).0,
            final(self).spec_index() + 1 == spec_scan_ascii_hex(
                old(self).spec_chars(),
                old(self).spec_index(),
            ).1,
    {
        let p = self.index;
        let n = self.chars.len();
        if n - p <= 2 || !is_hex_digit(self.chars[p + 2]) {
            self.index = p + 1;
            return char_token_from_code(0);
        }
        let v1 = char_to_hex(self.chars[p + 2]);
        if n - p <= 3 || !is_hex_digit(self.chars[p + 3]) {
            self.index = p + 2;
            return char_token_from_code(v1);
        }
        let v2 = v1 * 16 + char_to_hex(self.chars[p + 3]);
        if v2 > 127 {
            self.index = p + 2;
            char_token_from_code(v1)
        } else {
            self.index = p + 3;
            char_token_from_code(v2)
        }
    }

    /// Decodes `\DDD`: up to three decimal digits naming an ASCII byte.
    fn handle_ascii_dec_escape(&mut self) -> (t: Token)
        requires
            old(self).wf(),
            old(self).spec_index() + 1 < old(self).spec_chars().len(),
            old(self).spec_chars()[old(self).spec_index()] == '\\',
            spec_is_dec_digit(old(self).spec_chars()[old(self).spec_index() + 1]),
        ensures
            final(self).wf(),
            final(self).spec_chars() == old(self).spec_chars(),
            t@ == spec_scan_ascii_dec(old(self).spec_chars(), old(self).spec_index()).0,
            final(self).spec_index() + 1 == spec_scan_ascii_dec(
                old(self).spec_chars(),
                old(self).spec_index(),
            ).1,
    {
        let p = self.index;
        let n = self.chars.len();
        let v1 = char_to_hex(self.chars[p + 1]);
        if n - p <= 2 || !is_dec_digit(self.chars[p + 2]) {
            self.index = p + 1;
            return char_token_from_code(v1);
        }
        let v2 = v1 * 10 + char_to_hex(self.chars[p + 2]);
        if n - p <= 3 || !is_dec_digit(self.chars[p + 3]) {
            self.index = p + 2;
            return char_token_from_code(v2);
        }
        let v3 = v2 * 10 + char_to_hex(self.chars[p + 3]);
        if v3 > 127 {
            self.index = p + 2;
            char_token_from_code(v2)
        } else {
            self.index = p + 3;
            char_token_from_code(v3)
        }
    }
}

/// An ASCII code produced by an escape, as a `Character` token.
fn char_token_from_code(code: u32) -> (t: Token)
    requires
        code <= 127,
    ensures
        t@ == simple_tok(TokenType::Character, code as char),
{
    match char::from_u32(code) {
        Some(u) => {
            proof {
                vstd::utf8::char_u32_cast(u, code);
            }
            Token::new(TokenType::Character, u)
        },
        None => {
            // Codes up to 127 are always scalar values.
            proof {
                assert(spec_is_scalar(code));
            }
            Token::new(TokenType::Character, '\0')
        },
    }
}

} // verus!
