//! The lexical scanner: turns a character stream into a token stream, one
//! token per call, tracking line and column and supporting pushback.

use vstd::prelude::*;
use vstd::std_specs::iter::IteratorSpec;
use crate::buffered_iterator::BufferedIterator;
use crate::buffered_iterator::Producer;
use crate::diag::Diag;
use crate::numeric::alphabetic_of;
use crate::numeric::alphanumeric_of;
use crate::numeric::dec_literal_char;
use crate::numeric::dec_literal_chars;
use crate::numeric::digit_char;
use crate::numeric::dot_count;

verus! {

/// A producer that hands out the characters of its vector, in order.
pub struct CharSource {
    chars: Vec<char>,
    at: usize,
}

impl CharSource {
    /// The characters still to be handed out.
    pub closed spec fn items(&self) -> Seq<char> {
        if self.at as int <= self.chars@.len() {
            self.chars@.skip(self.at as int)
        } else {
            Seq::empty()
        }
    }

    pub fn new(chars: Vec<char>) -> (r: CharSource)
        ensures
            r.items() == chars@,
    {
        let r = CharSource { chars, at: 0 };
        proof {
            assert(r.items() =~= r.chars@);
        }
        r
    }
}

impl Producer<char> for CharSource {
    open spec fn remaining(&self) -> nat {
        self.items().len()
    }

    open spec fn can_produce(&self, r: Option<char>, next: &Self) -> bool {
        if self.items().len() > 0 {
            r == Some(self.items()[0]) && next.items() == self.items().skip(1)
        } else {
            r is None && next.items() == self.items()
        }
    }

    proof fn produce_progress(&self, r: Option<char>, next: &Self) {
    }

    fn produce(&mut self) -> (r: Option<char>)
        ensures
            old(self).can_produce(r, final(self)),
    {
        if self.at < self.chars.len() {
            let c = self.chars[self.at];
            self.at = self.at + 1;
            proof {
                assert(self.items() =~= old(self).items().skip(1));
                assert(old(self).items()[0] == c);
            }
            Some(c)
        } else {
            None
        }
    }
}

/// The characters of the string, in order, via `str::chars`.
pub(crate) fn str_chars(s: &str) -> (v: Vec<char>)
    ensures
        v@ == s@,
{
    broadcast use vstd::string::axiom_spec_iter;
    broadcast use vstd::string::next_postcondition;

    let mut v: Vec<char> = Vec::new();
    let mut it = s.chars();
    loop
        invariant
            it.obeys_prophetic_iter_laws(),
            IteratorSpec::decrease(&it) is Some,
            v@ + IteratorSpec::remaining(&it) == s@,
        ensures
            v@ == s@,
        decreases IteratorSpec::decrease(&it)->0,
    {
        match it.next() {
            Some(c) => {
                v.push(c);
            },
            None => {
                proof {
                    assert(v@ + IteratorSpec::remaining(&it) =~= v@);
                }
                break;
            },
        }
    }
    v
}

/// Relies on `String::from_iter` over `char`: the string holding exactly
/// the given characters, in order.
#[verifier::external_body]
fn chars_to_string(v: &Vec<char>) -> (s: String)
    ensures
        s@ == v@,
{
    v.iter().collect()
}

/// The kind of a lexical token.  Identifiers and numbers carry their text;
/// a number also carries the radix prefix it was written with (one of
/// `""`, `"0b"`, `"0o"`, `"0d"`, `"0x"`).
#[derive(Debug, PartialEq, Clone)]
pub enum TokenType {
    Ampersand,
    AmpersandEqual,
    Bang,
    Caret,
    CaretEqual,
    Equal,
    ForwardSlash,
    ForwardSlashEqual,
    Identifier { str: String },
    LeftAngleBracketX2,
    LeftAngleBracketX2Equal,
    LeftParen,
    Minus,
    MinusEqual,
    MinusX2,
    NewLine,
    Number { str: String, prefix: String },
    Percent,
    PercentEqual,
    Pipe,
    PipeEqual,
    Plus,
    PlusEqual,
    PlusX2,
    RightAngleBracketX2,
    RightAngleBracketX2Equal,
    RightParen,
    Star,
    StarEqual,
    StarX2,
    StarX2Equal,
}

/// One token with its source position (1-based line and column) and length
/// in characters.
#[derive(Debug, PartialEq)]
pub struct Token {
    pub token_type: TokenType,
    pub line: u32,
    pub column: u32,
    pub length: u32,
}

/// What the scanner guarantees of every token it hands out: a number
/// written without a binary, octal or hexadecimal prefix holds only digits
/// and at most one decimal point.
pub open spec fn token_wf(t: Token) -> bool {
    match t.token_type {
        TokenType::Number { str: v, prefix: p } => number_token_wf(v@, p@),
        _ => true,
    }
}

/// See `token_wf`.
pub open spec fn number_token_wf(v: Seq<char>, p: Seq<char>) -> bool {
    &&& number_prefix_wf(p)
    &&& (p != "0b"@ && p != "0o"@ && p != "0x"@) ==> dec_literal_chars(v)
}

/// The radix prefixes a number token can carry.
pub open spec fn number_prefix_wf(p: Seq<char>) -> bool {
    p == ""@ || p == "0b"@ || p == "0o"@ || p == "0d"@ || p == "0x"@
}

/// The character classes a numeric literal can draw its digits from.  The
/// underscore is accepted everywhere as a digit-group separator.
#[derive(Clone, Copy, PartialEq, Eq, Debug)]
pub enum CharClass {
    /// Binary digits.
    Bin,
    /// Octal digits.
    Oct,
    /// Decimal digits (after the decimal point).
    Dec,
    /// Decimal digits or the decimal point.
    FDec,
    /// Hexadecimal digits.
    Hex,
}

/// Which characters belong to each class.
pub open spec fn class_char(class: CharClass, c: char) -> bool {
    match class {
        CharClass::Bin => c == '_' || c == '0' || c == '1',
        CharClass::Oct => c == '_' || (('0' as u32) <= (c as u32) && (c as u32) <= ('7' as u32)),
        CharClass::Dec => c == '_' || digit_char(c),
        CharClass::FDec => c == '_' || digit_char(c) || c == '.',
        CharClass::Hex => c == '_' || digit_char(c) || (('a' as u32) <= (c as u32) && (c as u32)
            <= ('f' as u32)) || (('A' as u32) <= (c as u32) && (c as u32) <= ('F' as u32)),
    }
}

fn char_in_class(class: CharClass, c: char) -> (r: bool)
    ensures
        r == class_char(class, c),
{
    let u = c as u32;
    match class {
        CharClass::Bin => c == '_' || c == '0' || c == '1',
        CharClass::Oct => c == '_' || (48 <= u && u <= 55),
        CharClass::Dec => c == '_' || (48 <= u && u <= 57),
        CharClass::FDec => c == '_' || (48 <= u && u <= 57) || c == '.',
        CharClass::Hex => c == '_' || (48 <= u && u <= 57) || (97 <= u && u <= 102) || (65 <= u
            && u <= 70),
    }
}

/// The Unicode `White_Space` characters, as `char::is_whitespace` accepts
/// them.
pub open spec fn ws_char(c: char) -> bool {
    ||| c == ' '
    ||| c == '\t'
    ||| c == '\n'
    ||| c == '\r'
    ||| c == '\u{000B}'
    ||| c == '\u{000C}'
    ||| c == '\u{0085}'
    ||| c == '\u{00A0}'
    ||| c == '\u{1680}'
    ||| (('\u{2000}' as u32) <= (c as u32) && (c as u32) <= ('\u{200A}' as u32))
    ||| c == '\u{2028}'
    ||| c == '\u{2029}'
    ||| c == '\u{202F}'
    ||| c == '\u{205F}'
    ||| c == '\u{3000}'
}

fn is_ws(c: char) -> (r: bool)
    ensures
        r == ws_char(c),
{
    let u = c as u32;
    c == ' ' || c == '\t' || c == '\n' || c == '\r' || c == '\u{000B}' || c == '\u{000C}' || c
        == '\u{0085}' || c == '\u{00A0}' || c == '\u{1680}' || (0x2000 <= u && u <= 0x200A) || c
        == '\u{2028}' || c == '\u{2029}' || c == '\u{202F}' || c == '\u{205F}' || c == '\u{3000}'
}

/// Whether the second pending character is `c`.
pub open spec fn second_is(p: Seq<char>, c: char) -> bool {
    p.len() > 1 && p[1] == c
}

/// Whether the third pending character is `c`.
pub open spec fn third_is(p: Seq<char>, c: char) -> bool {
    p.len() > 2 && p[2] == c
}

/// The token that the scanner hands out when the head of the character
/// stream is an operator or grouping character: the longest match of the
/// operator table.  `None` for every other head (digits, letters,
/// whitespace, and a lone angle bracket, which is a scan error).
pub open spec fn op_token_at(p: Seq<char>) -> Option<TokenType> {
    if p.len() == 0 {
        None
    } else {
        let c = p[0];
        if c == '(' {
            Some(TokenType::LeftParen)
        } else if c == ')' {
            Some(TokenType::RightParen)
        } else if c == '!' {
            Some(TokenType::Bang)
        } else if c == '=' {
            Some(TokenType::Equal)
        } else if c == '\n' {
            Some(TokenType::NewLine)
        } else if c == '+' {
            Some(
                if second_is(p, '+') {
                    TokenType::PlusX2
                } else if second_is(p, '=') {
                    TokenType::PlusEqual
                } else {
                    TokenType::Plus
                },
            )
        } else if c == '-' {
            Some(
                if second_is(p, '-') {
                    TokenType::MinusX2
                } else if second_is(p, '=') {
                    TokenType::MinusEqual
                } else {
                    TokenType::Minus
                },
            )
        } else if c == '*' {
            Some(
                if second_is(p, '*') {
                    if third_is(p, '=') {
                        TokenType::StarX2Equal
                    } else {
                        TokenType::StarX2
                    }
                } else if second_is(p, '=') {
                    TokenType::StarEqual
                } else {
                    TokenType::Star
                },
            )
        } else if c == '^' {
            Some(
                if second_is(p, '=') {
                    TokenType::CaretEqual
                } else {
                    TokenType::Caret
                },
            )
        } else if c == '%' {
            Some(
                if second_is(p, '=') {
                    TokenType::PercentEqual
                } else {
                    TokenType::Percent
                },
            )
        } else if c == '/' {
            Some(
                if second_is(p, '=') {
                    TokenType::ForwardSlashEqual
                } else {
                    TokenType::ForwardSlash
                },
            )
        } else if c == '|' {
            Some(
                if second_is(p, '=') {
                    TokenType::PipeEqual
                } else {
                    TokenType::Pipe
                },
            )
        } else if c == '&' {
            Some(
                if second_is(p, '=') {
                    TokenType::AmpersandEqual
                } else {
                    TokenType::Ampersand
                },
            )
        } else if c == '<' && second_is(p, '<') {
            Some(
                if third_is(p, '=') {
                    TokenType::LeftAngleBracketX2Equal
                } else {
                    TokenType::LeftAngleBracketX2
                },
            )
        } else if c == '>' && second_is(p, '>') {
            Some(
                if third_is(p, '=') {
                    TokenType::RightAngleBracketX2Equal
                } else {
                    TokenType::RightAngleBracketX2
                },
            )
        } else {
            None
        }
    }
}

/// How many leading characters of `p` the identifier scanner keeps after
/// its first character: the maximal run of underscores and alphanumerics.
pub open spec fn ident_len(p: Seq<char>) -> nat
    decreases p.len(),
{
    if p.len() == 0 {
        0
    } else if p[0] == '_' || alphanumeric_of(p[0]) {
        1 + ident_len(p.skip(1))
    } else {
        0
    }
}

/// How many leading characters of `p` the number scanner consumes, drawing
/// from the class `cl` and switching to plain digits after a decimal
/// point.
pub open spec fn num_len(p: Seq<char>, cl: CharClass) -> nat
    decreases p.len(),
{
    if p.len() == 0 {
        0
    } else if class_char(cl, p[0]) {
        1 + num_len(
            p.skip(1),
            if p[0] == '.' {
                CharClass::Dec
            } else {
                cl
            },
        )
    } else {
        0
    }
}

/// The sequence with the digit-group separators (underscores) removed.
pub open spec fn strip_sep(s: Seq<char>) -> Seq<char>
    decreases s.len(),
{
    if s.len() == 0 {
        s
    } else if s[0] == '_' {
        strip_sep(s.skip(1))
    } else {
        seq![s[0]] + strip_sep(s.skip(1))
    }
}

/// The input with its insignificant leading whitespace removed: every
/// whitespace character but the newline, which is a token of its own.
pub open spec fn skip_ws_spec(p: Seq<char>) -> Seq<char>
    decreases p.len(),
{
    if p.len() == 0 {
        p
    } else if p[0] != '\n' && ws_char(p[0]) {
        skip_ws_spec(p.skip(1))
    } else {
        p
    }
}

/// What one call of `Scanner::next` does, as a function of the unconsumed
/// characters.
pub enum ScanStep {
    /// Only whitespace was left: no token, the input is exhausted.
    End,
    /// A scan failure: no token, and these characters are left.
    Fail(Seq<char>),
    /// An operator or grouping token, and the characters left after it.
    Op(TokenType, Seq<char>),
    /// A number token: its digits, its radix prefix, and the rest.
    Num(Seq<char>, Seq<char>, Seq<char>),
    /// An identifier token: its text and the rest.
    Ident(Seq<char>, Seq<char>),
}

/// The number token scanned at the head of `q` (whose first character is a
/// digit or a decimal point): its text, prefix, and the rest of the input.
pub open spec fn scan_number_spec(q: Seq<char>) -> (Seq<char>, Seq<char>, Seq<char>) {
    let chosen = if second_is(q, 'b') {
        Some((CharClass::Bin, "0b"@))
    } else if second_is(q, 'd') {
        Some((CharClass::FDec, "0d"@))
    } else if second_is(q, 'o') {
        Some((CharClass::Oct, "0o"@))
    } else if second_is(q, 'x') {
        Some((CharClass::Hex, "0x"@))
    } else {
        None
    };
    if q.len() > 0 && q[0] == '0' && chosen is Some {
        let pair = chosen->0;
        let body = q.skip(2);
        let n = num_len(body, pair.0) as int;
        (strip_sep(body.take(n)), pair.1, body.skip(n))
    } else {
        let n = num_len(q, CharClass::FDec) as int;
        (strip_sep(q.take(n)), ""@, q.skip(n))
    }
}

/// A token as the parser sees it: its kind with texts as character
/// sequences (a `String` cannot be built in specification code).
pub enum TokV {
    /// An operator, grouping or newline token.
    Simple(TokenType),
    /// A number token: its digits and its radix prefix.
    Num(Seq<char>, Seq<char>),
    /// An identifier token: its text.
    Ident(Seq<char>),
}

/// The view of a token kind.
pub open spec fn tokv(tt: TokenType) -> TokV {
    match tt {
        TokenType::Number { str, prefix } => TokV::Num(str@, prefix@),
        TokenType::Identifier { str } => TokV::Ident(str@),
        other => TokV::Simple(other),
    }
}

/// The tokens the scanner hands out for the characters `p`, in order,
/// stopping at the end of the input or at the first scan failure.
pub open spec fn tokenize(p: Seq<char>) -> Seq<TokV>
    decreases p.len(),
{
    match scan_step(p) {
        ScanStep::End => Seq::empty(),
        ScanStep::Fail(_) => Seq::empty(),
        ScanStep::Op(tt, rest) => if rest.len() < p.len() {
            seq![tokv(tt)] + tokenize(rest)
        } else {
            seq![tokv(tt)]
        },
        ScanStep::Num(text, pfx, rest) => if rest.len() < p.len() {
            seq![TokV::Num(text, pfx)] + tokenize(rest)
        } else {
            seq![TokV::Num(text, pfx)]
        },
        ScanStep::Ident(text, rest) => if rest.len() < p.len() {
            seq![TokV::Ident(text)] + tokenize(rest)
        } else {
            seq![TokV::Ident(text)]
        },
    }
}

/// Whether scanning the characters runs to the end of the input without a
/// scan failure: `tokenize` then accounts for every character.
pub open spec fn clean_end(p: Seq<char>) -> bool
    decreases p.len(),
{
    match scan_step(p) {
        ScanStep::End => true,
        ScanStep::Fail(_) => false,
        ScanStep::Op(_, rest) => rest.len() < p.len() && clean_end(rest),
        ScanStep::Num(_, _, rest) => rest.len() < p.len() && clean_end(rest),
        ScanStep::Ident(_, rest) => rest.len() < p.len() && clean_end(rest),
    }
}

/// The decomposition `scan_number_spec` makes of its input: the characters
/// after the radix prefix, the class its digits are drawn from, and the
/// prefix itself.
pub open spec fn spec_parts(p: Seq<char>, body: Seq<char>, cl: CharClass, pfx: Seq<char>) -> bool {
    scan_number_spec(p) == (
        strip_sep(body.take(num_len(body, cl) as int)),
        pfx,
        body.skip(num_len(body, cl) as int),
    )
}

/// See `ScanStep`: the complete behaviour of one scanner step over the
/// unconsumed characters.
pub open spec fn scan_step(p: Seq<char>) -> ScanStep {
    let q = skip_ws_spec(p);
    if q.len() == 0 {
        ScanStep::End
    } else {
        let c = q[0];
        if c == '_' || (!digit_char(c) && c != '.' && !is_op_head(c) && alphabetic_of(c)) {
            let n = ident_len(q.skip(1)) as int;
            ScanStep::Ident(seq![c] + q.skip(1).take(n), q.skip(1).skip(n))
        } else if digit_char(c) || c == '.' {
            let t = scan_number_spec(q);
            ScanStep::Num(t.0, t.1, t.2)
        } else if c == '<' && !second_is(q, '<') {
            ScanStep::Fail(
                if q.len() == 1 {
                    q.skip(1)
                } else {
                    q.skip(2)
                },
            )
        } else if c == '>' && !second_is(q, '>') {
            ScanStep::Fail(
                if q.len() == 1 {
                    q.skip(1)
                } else {
                    q.skip(2)
                },
            )
        } else {
            match op_token_at(q) {
                Some(tt) => ScanStep::Op(tt, q.skip(op_len(q) as int)),
                None => ScanStep::Fail(q),
            }
        }
    }
}

/// Whether the character begins an operator, grouping or newline token (or
/// a lone angle bracket, a scan error): everything `op_token_at` and the
/// angle-bracket failures dispatch on.
pub open spec fn is_op_head(c: char) -> bool {
    c == '(' || c == ')' || c == '!' || c == '=' || c == '\n' || c == '+' || c == '-' || c == '*'
        || c == '^' || c == '%' || c == '/' || c == '|' || c == '&' || c == '<' || c == '>'
}

/// The length in characters of the operator token at the head of `q`.
pub open spec fn op_len(q: Seq<char>) -> nat {
    let c = q[0];
    if c == '(' || c == ')' || c == '!' || c == '=' || c == '\n' {
        1
    } else if c == '*' {
        if second_is(q, '*') {
            if third_is(q, '=') {
                3
            } else {
                2
            }
        } else if second_is(q, '=') {
            2
        } else {
            1
        }
    } else if c == '<' || c == '>' {
        if third_is(q, '=') {
            3
        } else {
            2
        }
    } else if c == '+' {
        if second_is(q, '+') || second_is(q, '=') {
            2
        } else {
            1
        }
    } else if c == '-' {
        if second_is(q, '-') || second_is(q, '=') {
            2
        } else {
            1
        }
    } else {
        if second_is(q, '=') {
            2
        } else {
            1
        }
    }
}

/// Appending one character to a sequence appends it to the stripped form
/// too, unless it is a separator.
proof fn lemma_strip_sep_push(s: Seq<char>, c: char)
    ensures
        strip_sep(s.push(c)) == strip_sep(s) + (if c == '_' {
            Seq::<char>::empty()
        } else {
            seq![c]
        }),
    decreases s.len(),
{
    let x: Seq<char> = if c == '_' {
        Seq::empty()
    } else {
        seq![c]
    };
    if s.len() == 0 {
        assert(s.push(c)[0] == c);
        assert(s.push(c).skip(1) =~= Seq::<char>::empty());
        assert(strip_sep(Seq::<char>::empty()) =~= Seq::<char>::empty());
        assert(strip_sep(s.push(c)) =~= strip_sep(s) + x);
    } else {
        assert(s.push(c)[0] == s[0]);
        assert(s.push(c).skip(1) =~= s.skip(1).push(c));
        lemma_strip_sep_push(s.skip(1), c);
        if s[0] == '_' {
        } else {
            assert((seq![s[0]] + (strip_sep(s.skip(1)) + x)) =~= (seq![s[0]] + strip_sep(
                s.skip(1),
            )) + x);
        }
    }
}

/// The scanner.  `pending` is the characters it has not yet consumed;
/// every token handed out consumes at least one of them.
pub struct Scanner {
    chars: BufferedIterator<char, CharSource>,
    line: u32,
    column: u32,
    pub(crate) diags: Vec<Diag>,
}

impl Scanner {
    /// The characters not yet consumed, next first.
    pub closed spec fn pending(&self) -> Seq<char> {
        self.chars.buffered().reverse() + self.chars.producer().items()
    }

    /// Termination measure: shrinks with every consumed character.
    pub closed spec fn measure(&self) -> nat {
        self.chars.measure()
    }

    /// How many diagnostics the scanner holds for the driver.
    pub closed spec fn diag_count(&self) -> nat {
        self.diags@.len()
    }

    /// The 1-based line the scanner is standing on.
    pub closed spec fn cur_line(&self) -> u32 {
        self.line
    }

    /// The column of the next character to be consumed; tokens record the
    /// column of their first character.
    pub closed spec fn cur_column(&self) -> u32 {
        self.column
    }

    /// The measure is exactly the number of unconsumed characters.
    pub proof fn lemma_pending_measure(&self)
        ensures
            self.pending().len() == self.measure(),
    {
        assert(self.chars.buffered().reverse().len() == self.chars.buffered().len());
    }

    pub fn new(input: &str) -> (s: Scanner)
        ensures
            s.pending() == input@,
            s.cur_line() == 1,
            s.cur_column() == 1,
            s.diag_count() == 0,
    {
        let chars = str_chars(input);
        let buf = BufferedIterator::new(CharSource::new(chars));
        let s = Scanner { chars: buf, line: 1, column: 1, diags: Vec::new() };
        proof {
            assert(s.pending() =~= input@);
        }
        s
    }

    /// Hand the accumulated diagnostics over to the caller, in order.
    pub(crate) fn take_diags(&mut self) -> (r: Vec<Diag>)
        ensures
            final(self).pending() == old(self).pending(),
            final(self).measure() == old(self).measure(),
            r@.len() == old(self).diag_count(),
            final(self).diag_count() == 0,
    {
        let mut out: Vec<Diag> = Vec::new();
        core::mem::swap(&mut out, &mut self.diags);
        out
    }

    fn expected_char(&mut self, expected: char, found: char)
        ensures
            final(self).diag_count() >= old(self).diag_count(),
            final(self).pending() == old(self).pending(),
            final(self).measure() == old(self).measure(),
    {
        let d = Diag::ExpectedChar { expected, found, line: self.line, column: self.column };
        self.diags.push(d);
    }

    fn unexpected_char(&mut self, found: char)
        ensures
            final(self).diag_count() >= old(self).diag_count(),
            final(self).pending() == old(self).pending(),
            final(self).measure() == old(self).measure(),
    {
        let d = Diag::UnexpectedChar { found, line: self.line, column: self.column };
        self.diags.push(d);
    }

    fn unexpected_end_of_input(&mut self)
        ensures
            final(self).diag_count() >= old(self).diag_count(),
            final(self).pending() == old(self).pending(),
            final(self).measure() == old(self).measure(),
    {
        let d = Diag::UnexpectedEndOfInput { line: self.line, column: self.column };
        self.diags.push(d);
    }

    fn get_char(&mut self) -> (r: Option<char>)
        ensures
            r matches Some(c) ==> old(self).pending().len() > 0 && c == old(self).pending()[0]
                && final(self).pending() == old(self).pending().skip(1) && final(self).measure()
                < old(self).measure(),
            r is None ==> final(self).pending() == old(self).pending() && old(self).pending().len() == 0 && final(self).measure() <= old(self).measure(),
            final(self).diags == old(self).diags,
    {
        if self.column < u32::MAX {
            self.column = self.column + 1;
        }
        let r = self.chars.pop();
        proof {
            let b = old(self).chars.buffered();
            if b.len() > 0 {
                assert(old(self).pending()[0] == b.last());
                assert(self.pending() =~= old(self).pending().skip(1));
            } else {
                assert(b.reverse() =~= Seq::<char>::empty());
                assert(old(self).pending() =~= old(self).chars.producer().items());
                assert(self.pending() =~= self.chars.producer().items());
                if r is None {
                    assert(self.pending() =~= old(self).pending());
                }
            }
        }
        r
    }

    fn put_char(&mut self, c: char)
        ensures
            final(self).pending() == seq![c] + old(self).pending(),
            final(self).measure() == old(self).measure() + 1,
            final(self).diags == old(self).diags,
    {
        if self.column > 0 {
            self.column = self.column - 1;
        }
        self.chars.push(c);
        proof {
            assert(self.pending() =~= seq![c] + old(self).pending());
        }
    }

    fn expect_char(&mut self, expected: char) -> (r: bool)
        ensures
            final(self).diag_count() >= old(self).diag_count(),
            r ==> old(self).pending().len() > 0 && old(self).pending()[0] == expected && final(self).pending() == old(self).pending().skip(1) && final(self).measure() < old(self).measure(),
            !r ==> final(self).measure() <= old(self).measure(),
            !r ==> old(self).pending().len() == 0 || old(self).pending()[0] != expected,
            !r ==> final(self).pending() == (if old(self).pending().len() == 0 {
                old(self).pending()
            } else {
                old(self).pending().skip(1)
            }),
    {
        match self.get_char() {
            Some(c) => {
                if c == expected {
                    true
                } else {
                    self.expected_char(expected, c);
                    false
                }
            },
            None => {
                self.unexpected_end_of_input();
                false
            },
        }
    }

    fn consume_char(&mut self, char: char) -> (r: bool)
        ensures
            r ==> old(self).pending().len() > 0 && old(self).pending()[0] == char && final(self).pending() == old(self).pending().skip(1) && final(self).measure() < old(self).measure(),
            !r ==> final(self).pending() == old(self).pending() && final(self).measure() <= old(self).measure(),
            !r ==> old(self).pending().len() == 0 || old(self).pending()[0] != char,
            final(self).diags == old(self).diags,
    {
        match self.get_char() {
            Some(c) => {
                if c == char {
                    true
                } else {
                    self.put_char(c);
                    proof {
                        assert(self.pending() =~= old(self).pending());
                    }
                    false
                }
            },
            None => false,
        }
    }

    fn consume_char_of(&mut self, class: CharClass) -> (r: Option<char>)
        ensures
            r matches Some(c) ==> class_char(class, c) && old(self).pending().len() > 0 && old(self).pending()[0] == c && final(self).pending() == old(self).pending().skip(1) && final(self).measure() < old(self).measure(),
            r is None ==> final(self).pending() == old(self).pending() && final(self).measure()
                <= old(self).measure() && (old(self).pending().len() == 0 || !class_char(
                class,
                old(self).pending()[0],
            )),
            final(self).diags == old(self).diags,
    {
        match self.get_char() {
            Some(c) => {
                if char_in_class(class, c) {
                    Some(c)
                } else {
                    self.put_char(c);
                    proof {
                        assert(self.pending() =~= old(self).pending());
                    }
                    None
                }
            },
            None => None,
        }
    }

    fn new_token(&self, token_type: TokenType, length: u32) -> (r: Option<Token>)
        ensures
            r matches Some(t) && t.token_type == token_type && t.line == self.cur_line()
                && t.length == length && t.column == (if self.cur_column() >= length {
                (self.cur_column() - length) as u32
            } else {
                0u32
            }),
    {
        let column = if self.column >= length {
            self.column - length
        } else {
            0
        };
        Some(Token { token_type, line: self.line, column, length })
    }

    /// Skip whitespace other than the newline; hand back the first
    /// significant character, consumed.
    fn skip_ws(&mut self) -> (r: Option<char>)
        ensures
            final(self).diag_count() >= old(self).diag_count(),
            r matches Some(c) ==> (c == '\n' || !ws_char(c)) && final(self).measure() < old(self).measure(),
            r is None ==> final(self).measure() <= old(self).measure(),
            ({
                let q = skip_ws_spec(old(self).pending());
                &&& (r matches Some(c) ==> q.len() > 0 && c == q[0] && final(self).pending()
                    == q.skip(1))
                &&& (r is None ==> q.len() == 0 && final(self).pending().len() == 0)
            }),
    {
        let ghost m0 = self.measure();
        let ghost p0 = self.pending();
        loop
            invariant
                m0 == old(self).measure(),
                p0 == old(self).pending(),
                self.measure() <= m0,
                self.diag_count() >= old(self).diag_count(),
                self.diag_count() >= old(self).diag_count(),
                skip_ws_spec(p0) == skip_ws_spec(self.pending()),
            decreases self.measure(),
        {
            match self.get_char() {
                None => {
                    return None;
                },
                Some(c) => {
                    if c == '\n' || !is_ws(c) {
                        return Some(c);
                    }
                },
            }
        }
    }

    /// Produce the next token, or `None` at the end of the input or on a
    /// scan failure (which has then been recorded as a diagnostic).
    pub fn next(&mut self) -> (r: Option<Token>)
        ensures
            r matches Some(t) ==> token_wf(t) && final(self).measure() < old(self).measure(),
            r is None ==> final(self).measure() <= old(self).measure(),
            final(self).diag_count() >= old(self).diag_count(),
            ({
                let step = scan_step(old(self).pending());
                &&& (step is End ==> r is None && final(self).pending().len() == 0)
                &&& (step matches ScanStep::Fail(rest) ==> r is None && final(self).pending()
                    == rest)
                &&& (step matches ScanStep::Op(tt, rest) ==> (r matches Some(t) && t.token_type
                    == tt && final(self).pending() == rest))
                &&& (step matches ScanStep::Num(text, pfx, rest) ==> (r matches Some(t) && (
                t.token_type matches TokenType::Number { str, prefix } && str@ == text && prefix@
                    == pfx) && final(self).pending() == rest))
                &&& (step matches ScanStep::Ident(text, rest) ==> (r matches Some(t) && (
                t.token_type matches TokenType::Identifier { str } && str@ == text) && final(self).pending() == rest))
            }),
    {
        let ghost q = skip_ws_spec(old(self).pending());
        let c = match self.skip_ws() {
            None => {
                return None;
            },
            Some(c) => c,
        };
        proof {
            if q.len() > 1 {
                assert(q.skip(1)[0] == q[1]);
                assert(q.skip(1).skip(1) =~= q.skip(2));
            }
            if q.len() > 2 {
                assert(q.skip(1)[1] == q[2]);
                assert(q.skip(1).skip(2) =~= q.skip(3));
            }
            assert(seq![q[0]] + q.skip(1) =~= q);
        }

        if c == '(' {
            self.new_token(TokenType::LeftParen, 1)
        } else if c == ')' {
            self.new_token(TokenType::RightParen, 1)
        } else if c == '+' {
            self.scan_plus()
        } else if c == '-' {
            self.scan_minus()
        } else if c == '*' {
            self.scan_star()
        } else if c == '^' {
            self.scan_caret()
        } else if c == '%' {
            self.scan_percent()
        } else if c == '/' {
            self.scan_forward_slash()
        } else if c == '!' {
            self.new_token(TokenType::Bang, 1)
        } else if c == '|' {
            self.scan_pipe()
        } else if c == '&' {
            self.scan_ampersand()
        } else if c == '<' {
            self.scan_left_angle_bracket()
        } else if c == '>' {
            self.scan_right_angle_bracket()
        } else if c == '=' {
            self.new_token(TokenType::Equal, 1)
        } else if c == '\n' {
            self.scan_new_line()
        } else if c == '_' {
            self.put_char(c);
            self.scan_identifier()
        } else {
            let u = c as u32;
            if c == '.' || (48 <= u && u <= 57) {
                self.put_char(c);
                self.scan_number()
            } else {
                self.put_char(c);
                if c.is_alphabetic() {
                    self.scan_identifier()
                } else {
                    self.unexpected_char(c);
                    None
                }
            }
        }
    }

    fn scan_plus(&mut self) -> (r: Option<Token>)
        ensures
            final(self).diag_count() >= old(self).diag_count(),
            r is Some,
            r matches Some(t) ==> token_wf(t),
            final(self).pending() == (if old(self).pending().len() > 0 && (old(self).pending()[0]
                == '+' || old(self).pending()[0] == '=') {
                old(self).pending().skip(1)
            } else {
                old(self).pending()
            }),
            r matches Some(t) ==> t.token_type == (if old(self).pending().len() > 0 && old(
                self,
            ).pending()[0] == '+' {
                TokenType::PlusX2
            } else if old(self).pending().len() > 0 && old(self).pending()[0] == '=' {
                TokenType::PlusEqual
            } else {
                TokenType::Plus
            }),
            final(self).measure() <= old(self).measure(),
    {
        if self.consume_char('+') {
            self.new_token(TokenType::PlusX2, 2)
        } else if self.consume_char('=') {
            self.new_token(TokenType::PlusEqual, 2)
        } else {
            self.new_token(TokenType::Plus, 1)
        }
    }

    fn scan_minus(&mut self) -> (r: Option<Token>)
        ensures
            final(self).diag_count() >= old(self).diag_count(),
            r is Some,
            r matches Some(t) ==> token_wf(t),
            final(self).pending() == (if old(self).pending().len() > 0 && (old(self).pending()[0]
                == '-' || old(self).pending()[0] == '=') {
                old(self).pending().skip(1)
            } else {
                old(self).pending()
            }),
            r matches Some(t) ==> t.token_type == (if old(self).pending().len() > 0 && old(
                self,
            ).pending()[0] == '-' {
                TokenType::MinusX2
            } else if old(self).pending().len() > 0 && old(self).pending()[0] == '=' {
                TokenType::MinusEqual
            } else {
                TokenType::Minus
            }),
            final(self).measure() <= old(self).measure(),
    {
        if self.consume_char('-') {
            self.new_token(TokenType::MinusX2, 2)
        } else if self.consume_char('=') {
            self.new_token(TokenType::MinusEqual, 2)
        } else {
            self.new_token(TokenType::Minus, 1)
        }
    }

    fn scan_star(&mut self) -> (r: Option<Token>)
        ensures
            final(self).diag_count() >= old(self).diag_count(),
            r is Some,
            r matches Some(t) ==> token_wf(t),
            final(self).pending() == (if old(self).pending().len() > 0 && old(self).pending()[0]
                == '*' {
                if old(self).pending().len() > 1 && old(self).pending()[1] == '=' {
                    old(self).pending().skip(2)
                } else {
                    old(self).pending().skip(1)
                }
            } else if old(self).pending().len() > 0 && old(self).pending()[0] == '=' {
                old(self).pending().skip(1)
            } else {
                old(self).pending()
            }),
            r matches Some(t) ==> t.token_type == (if old(self).pending().len() > 0 && old(
                self,
            ).pending()[0] == '*' {
                if old(self).pending().len() > 1 && old(self).pending()[1] == '=' {
                    TokenType::StarX2Equal
                } else {
                    TokenType::StarX2
                }
            } else if old(self).pending().len() > 0 && old(self).pending()[0] == '=' {
                TokenType::StarEqual
            } else {
                TokenType::Star
            }),
            final(self).measure() <= old(self).measure(),
    {
        if self.consume_char('*') {
            if self.consume_char('=') {
                proof {
                    assert(old(self).pending().skip(1).skip(1) =~= old(self).pending().skip(2));
                }
                self.new_token(TokenType::StarX2Equal, 3)
            } else {
                self.new_token(TokenType::StarX2, 2)
            }
        } else if self.consume_char('=') {
            self.new_token(TokenType::StarEqual, 2)
        } else {
            self.new_token(TokenType::Star, 1)
        }
    }

    fn scan_caret(&mut self) -> (r: Option<Token>)
        ensures
            final(self).diag_count() >= old(self).diag_count(),
            r is Some,
            r matches Some(t) ==> token_wf(t),
            final(self).pending() == (if old(self).pending().len() > 0 && old(self).pending()[0]
                == '=' {
                old(self).pending().skip(1)
            } else {
                old(self).pending()
            }),
            r matches Some(t) ==> t.token_type == (if old(self).pending().len() > 0 && old(
                self,
            ).pending()[0] == '=' {
                TokenType::CaretEqual
            } else {
                TokenType::Caret
            }),
            final(self).measure() <= old(self).measure(),
    {
        if self.consume_char('=') {
            self.new_token(TokenType::CaretEqual, 2)
        } else {
            self.new_token(TokenType::Caret, 1)
        }
    }

    fn scan_percent(&mut self) -> (r: Option<Token>)
        ensures
            final(self).diag_count() >= old(self).diag_count(),
            r is Some,
            r matches Some(t) ==> token_wf(t),
            final(self).pending() == (if old(self).pending().len() > 0 && old(self).pending()[0]
                == '=' {
                old(self).pending().skip(1)
            } else {
                old(self).pending()
            }),
            r matches Some(t) ==> t.token_type == (if old(self).pending().len() > 0 && old(
                self,
            ).pending()[0] == '=' {
                TokenType::PercentEqual
            } else {
                TokenType::Percent
            }),
            final(self).measure() <= old(self).measure(),
    {
        if self.consume_char('=') {
            self.new_token(TokenType::PercentEqual, 2)
        } else {
            self.new_token(TokenType::Percent, 1)
        }
    }

    fn scan_forward_slash(&mut self) -> (r: Option<Token>)
        ensures
            final(self).diag_count() >= old(self).diag_count(),
            r is Some,
            r matches Some(t) ==> token_wf(t),
            final(self).pending() == (if old(self).pending().len() > 0 && old(self).pending()[0]
                == '=' {
                old(self).pending().skip(1)
            } else {
                old(self).pending()
            }),
            r matches Some(t) ==> t.token_type == (if old(self).pending().len() > 0 && old(
                self,
            ).pending()[0] == '=' {
                TokenType::ForwardSlashEqual
            } else {
                TokenType::ForwardSlash
            }),
            final(self).measure() <= old(self).measure(),
    {
        if self.consume_char('=') {
            self.new_token(TokenType::ForwardSlashEqual, 2)
        } else {
            self.new_token(TokenType::ForwardSlash, 1)
        }
    }

    fn scan_pipe(&mut self) -> (r: Option<Token>)
        ensures
            final(self).diag_count() >= old(self).diag_count(),
            r is Some,
            r matches Some(t) ==> token_wf(t),
            final(self).pending() == (if old(self).pending().len() > 0 && old(self).pending()[0]
                == '=' {
                old(self).pending().skip(1)
            } else {
                old(self).pending()
            }),
            r matches Some(t) ==> t.token_type == (if old(self).pending().len() > 0 && old(
                self,
            ).pending()[0] == '=' {
                TokenType::PipeEqual
            } else {
                TokenType::Pipe
            }),
            final(self).measure() <= old(self).measure(),
    {
        if self.consume_char('=') {
            self.new_token(TokenType::PipeEqual, 2)
        } else {
            self.new_token(TokenType::Pipe, 1)
        }
    }

    fn scan_ampersand(&mut self) -> (r: Option<Token>)
        ensures
            final(self).diag_count() >= old(self).diag_count(),
            r is Some,
            r matches Some(t) ==> token_wf(t),
            final(self).pending() == (if old(self).pending().len() > 0 && old(self).pending()[0]
                == '=' {
                old(self).pending().skip(1)
            } else {
                old(self).pending()
            }),
            r matches Some(t) ==> t.token_type == (if old(self).pending().len() > 0 && old(
                self,
            ).pending()[0] == '=' {
                TokenType::AmpersandEqual
            } else {
                TokenType::Ampersand
            }),
            final(self).measure() <= old(self).measure(),
    {
        if self.consume_char('=') {
            self.new_token(TokenType::AmpersandEqual, 2)
        } else {
            self.new_token(TokenType::Ampersand, 1)
        }
    }

    fn scan_left_angle_bracket(&mut self) -> (r: Option<Token>)
        ensures
            final(self).diag_count() >= old(self).diag_count(),
            r is Some <==> old(self).pending().len() > 0 && old(self).pending()[0] == '<',
            r matches Some(t) ==> token_wf(t),
            r matches Some(t) ==> final(self).pending() == (if old(self).pending().len() > 1
                && old(self).pending()[1] == '=' {
                old(self).pending().skip(2)
            } else {
                old(self).pending().skip(1)
            }),
            r is None ==> final(self).pending() == (if old(self).pending().len() == 0 {
                old(self).pending()
            } else {
                old(self).pending().skip(1)
            }),
            r matches Some(t) ==> t.token_type == (if old(self).pending().len() > 1 && old(
                self,
            ).pending()[1] == '=' {
                TokenType::LeftAngleBracketX2Equal
            } else {
                TokenType::LeftAngleBracketX2
            }),
            final(self).measure() <= old(self).measure(),
    {
        if self.expect_char('<') {
            if self.consume_char('=') {
                proof {
                    assert(old(self).pending().skip(1).skip(1) =~= old(self).pending().skip(2));
                }
                self.new_token(TokenType::LeftAngleBracketX2Equal, 3)
            } else {
                self.new_token(TokenType::LeftAngleBracketX2, 2)
            }
        } else {
            None
        }
    }

    fn scan_right_angle_bracket(&mut self) -> (r: Option<Token>)
        ensures
            final(self).diag_count() >= old(self).diag_count(),
            r is Some <==> old(self).pending().len() > 0 && old(self).pending()[0] == '>',
            r matches Some(t) ==> token_wf(t),
            r matches Some(t) ==> final(self).pending() == (if old(self).pending().len() > 1
                && old(self).pending()[1] == '=' {
                old(self).pending().skip(2)
            } else {
                old(self).pending().skip(1)
            }),
            r is None ==> final(self).pending() == (if old(self).pending().len() == 0 {
                old(self).pending()
            } else {
                old(self).pending().skip(1)
            }),
            r matches Some(t) ==> t.token_type == (if old(self).pending().len() > 1 && old(
                self,
            ).pending()[1] == '=' {
                TokenType::RightAngleBracketX2Equal
            } else {
                TokenType::RightAngleBracketX2
            }),
            final(self).measure() <= old(self).measure(),
    {
        if self.expect_char('>') {
            if self.consume_char('=') {
                proof {
                    assert(old(self).pending().skip(1).skip(1) =~= old(self).pending().skip(2));
                }
                self.new_token(TokenType::RightAngleBracketX2Equal, 3)
            } else {
                self.new_token(TokenType::RightAngleBracketX2, 2)
            }
        } else {
            None
        }
    }

    fn scan_new_line(&mut self) -> (r: Option<Token>)
        ensures
            final(self).diag_count() >= old(self).diag_count(),
            r is Some,
            r matches Some(t) ==> t.token_type == TokenType::NewLine,
            final(self).pending() == old(self).pending(),
            final(self).measure() <= old(self).measure(),
            final(self).cur_line() == (if old(self).cur_line() < u32::MAX {
                (old(self).cur_line() + 1) as u32
            } else {
                old(self).cur_line()
            }),
            final(self).cur_column() == 0,
    {
        let t = self.new_token(TokenType::NewLine, 1);
        if self.line < u32::MAX {
            self.line = self.line + 1;
        }
        self.column = 0;
        t
    }

    fn scan_number(&mut self) -> (r: Option<Token>)
        requires
            old(self).pending().len() > 0,
            dec_literal_char(old(self).pending()[0]),
        ensures
            final(self).diag_count() >= old(self).diag_count(),
            r is Some,
            r matches Some(t) ==> token_wf(t),
            r matches Some(t) ==> (t.token_type matches TokenType::Number { str, prefix }
                && str@ == scan_number_spec(old(self).pending()).0 && prefix@
                == scan_number_spec(old(self).pending()).1),
            final(self).pending() == scan_number_spec(old(self).pending()).2,
            final(self).measure() < old(self).measure(),
    {
        let ghost m0 = self.measure();
        let ghost p0 = self.pending();
        let ghost mut body: Seq<char> = p0;
        let ghost mut k: int = 0;
        let start = self.column;
        let mut pred = CharClass::FDec;
        let mut value: Vec<char> = Vec::new();
        let mut prefix = String::new();
        proof {
            reveal_strlit("");
            assert(prefix@ =~= ""@);
        }

        // check for binary/octal/hexadecimal literal prefixes
        if self.consume_char('0') {
            match self.get_char() {
                Some(c1) => {
                    proof {
                        assert(p0.skip(1)[0] == p0[1]);
                        assert(p0.skip(1).skip(1) =~= p0.skip(2));
                    }
                    if c1 == 'b' {
                        prefix = "0b".to_owned();
                        pred = CharClass::Bin;
                        proof {
                            body = self.pending();
                            assert(spec_parts(p0, body, CharClass::Bin, prefix@));
                        }
                    } else if c1 == 'd' {
                        prefix = "0d".to_owned();
                        pred = CharClass::FDec;
                        proof {
                            body = self.pending();
                            assert(spec_parts(p0, body, CharClass::FDec, prefix@));
                        }
                    } else if c1 == 'o' {
                        prefix = "0o".to_owned();
                        pred = CharClass::Oct;
                        proof {
                            body = self.pending();
                            assert(spec_parts(p0, body, CharClass::Oct, prefix@));
                        }
                    } else if c1 == 'x' {
                        prefix = "0x".to_owned();
                        pred = CharClass::Hex;
                        proof {
                            body = self.pending();
                            assert(spec_parts(p0, body, CharClass::Hex, prefix@));
                        }
                    } else {
                        self.put_char(c1);
                        self.put_char('0');
                        proof {
                            assert(self.pending() =~= p0);
                            assert(spec_parts(p0, body, CharClass::FDec, prefix@));
                        }
                    }
                },
                None => {
                    self.put_char('0');
                    proof {
                        assert(self.pending() =~= p0);
                        assert(p0.skip(1).len() == 0);
                        assert(spec_parts(p0, body, CharClass::FDec, prefix@));
                    }
                },
            }
        } else {
            proof {
                assert(spec_parts(p0, body, CharClass::FDec, prefix@));
            }
        }
        let ghost cl0 = pred;
        proof {
            assert(body.skip(0) =~= body);
            assert(body.take(0) =~= Seq::<char>::empty());
            assert(strip_sep(body.take(0)) =~= Seq::<char>::empty());
        }

        loop
            invariant
                m0 == old(self).measure(),
                p0 == old(self).pending(),
                self.measure() <= m0,
                self.diag_count() >= old(self).diag_count(),
                self.measure() < m0 || (self.pending() == p0 && pred is FDec),
                p0.len() > 0 && dec_literal_char(p0[0]),
                pred is FDec || pred is Dec || prefix@ == "0b"@ || prefix@ == "0o"@ || prefix@
                    == "0x"@,
                number_prefix_wf(prefix@),
                (pred is FDec || pred is Dec) ==> forall|i: int|
                    0 <= i < value@.len() ==> dec_literal_char(#[trigger] value@[i]),
                pred is FDec ==> dot_count(value@) == 0,
                pred is Dec ==> dot_count(value@) <= 1,
                spec_parts(p0, body, cl0, prefix@),
                0 <= k <= num_len(body, cl0),
                k <= body.len(),
                self.pending() == body.skip(k),
                value@ == strip_sep(body.take(k)),
                num_len(body, cl0) == k + num_len(body.skip(k), pred),
            ensures
                self.measure() < m0,
                pred is FDec || pred is Dec || prefix@ == "0b"@ || prefix@ == "0o"@ || prefix@
                    == "0x"@,
                number_prefix_wf(prefix@),
                (pred is FDec || pred is Dec) ==> dec_literal_chars(value@),
                value@ == scan_number_spec(p0).0,
                prefix@ == scan_number_spec(p0).1,
                self.pending() == scan_number_spec(p0).2,
            decreases self.measure(),
        {
            match self.consume_char_of(pred) {
                Some(c) => {
                    proof {
                        assert(body.skip(k)[0] == body[k]);
                        assert(body.skip(k).skip(1) =~= body.skip(k + 1));
                        assert(body.take(k + 1) =~= body.take(k).push(body[k]));
                        lemma_strip_sep_push(body.take(k), body[k]);
                        k = k + 1;
                    }
                    if c != '_' {
                        let ghost prev = value@;
                        value.push(c);
                        proof {
                            assert(value@.drop_last() =~= prev);
                            assert(value@ =~= prev + seq![c]);
                        }
                    } else {
                        proof {
                            assert(value@ + Seq::<char>::empty() =~= value@);
                        }
                    }
                    if c == '.' {
                        pred = CharClass::Dec;
                    }
                },
                None => {
                    break;
                },
            }
        }

        let length = if self.column >= start {
            self.column - start
        } else {
            0
        };
        let text = chars_to_string(&value);
        self.new_token(TokenType::Number { str: text, prefix }, length)
    }

    fn scan_identifier(&mut self) -> (r: Option<Token>)
        requires
            old(self).pending().len() > 0,
        ensures
            final(self).diag_count() >= old(self).diag_count(),
            r is Some,
            r matches Some(t) ==> (t.token_type matches TokenType::Identifier { str } && str@
                == seq![old(self).pending()[0]] + old(self).pending().skip(1).take(
                ident_len(old(self).pending().skip(1)) as int,
            )),
            final(self).pending() == old(self).pending().skip(1).skip(
                ident_len(old(self).pending().skip(1)) as int,
            ),
            final(self).measure() < old(self).measure(),
    {
        let ghost m0 = self.measure();
        let ghost h0 = self.pending()[0];
        let start = self.column;
        let mut value: Vec<char> = Vec::new();
        match self.get_char() {
            Some(c) => {
                value.push(c);
            },
            None => {
                return None;
            },
        }
        let ghost p1 = self.pending();
        let ghost mut k: int = 0;
        proof {
            assert(p1.skip(0) =~= p1);
            assert(p1.take(0) =~= Seq::<char>::empty());
            assert(seq![h0] + p1.take(0) =~= seq![h0]);
        }

        loop
            invariant
                m0 == old(self).measure(),
                h0 == old(self).pending()[0],
                p1 == old(self).pending().skip(1),
                self.measure() < m0,
                self.diag_count() >= old(self).diag_count(),
                0 <= k <= ident_len(p1),
                k <= p1.len(),
                self.pending() == p1.skip(k),
                value@ == seq![h0] + p1.take(k),
                ident_len(p1) == k + ident_len(p1.skip(k)),
            ensures
                value@ == seq![h0] + p1.take(ident_len(p1) as int),
                self.pending() == p1.skip(ident_len(p1) as int),
                self.measure() < m0,
            decreases self.measure(),
        {
            match self.get_char() {
                Some(c) => {
                    proof {
                        assert(p1.skip(k)[0] == p1[k]);
                        assert(p1.skip(k).skip(1) =~= p1.skip(k + 1));
                        assert(p1.take(k + 1) =~= p1.take(k).push(p1[k]));
                        assert((seq![h0] + p1.take(k)).push(p1[k]) =~= seq![h0] + p1.take(
                            k + 1,
                        ));
                    }
                    if c == '_' {
                        proof {
                            k = k + 1;
                        }
                        value.push(c);
                    } else if c.is_alphanumeric() {
                        proof {
                            k = k + 1;
                        }
                        value.push(c);
                    } else {
                        self.put_char(c);
                        proof {
                            assert(seq![c] + p1.skip(k).skip(1) =~= p1.skip(k));
                        }
                        break;
                    }
                },
                None => {
                    break;
                },
            }
        }

        let length = if self.column >= start {
            self.column - start
        } else {
            0
        };
        let text = chars_to_string(&value);
        self.new_token(TokenType::Identifier { str: text }, length)
    }
}

} // verus!
