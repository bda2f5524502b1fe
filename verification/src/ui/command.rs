//! The command mini-language.
//!
//! A command input starts with `:` and holds whitespace-separated words:
//! `:b clear` or `:board clear` clears the board, `:cur X Y` or
//! `:cursor X Y` moves the cursor, `:q` or `:quit` ends the session.
//! Parsing works on the input's bytes; words are separated by ASCII
//! whitespace.

use vstd::prelude::*;
use vstd::string::StringSliceAdditionalSpecFns;

verus! {

#[derive(Debug, PartialEq, Eq, Structural)]
pub enum Command {
    // Clears the board setting all cells to Dead.
    BoardClear,
    // Move cursor to coordinates. If no cursor is active, creates one.
    Cursor(i32, i32),
    // Gracefully terminate the application.
    Quit,
}

#[derive(Debug, PartialEq, Eq, Structural)]
pub enum ParseError {
    InvalidArgument,
    InvalidCommand,
    MissingArgument,
}

/// ASCII whitespace: space, tab, and the line-break controls.
pub open spec fn is_ws(b: u8) -> bool {
    b == 32 || (9 <= b <= 13)
}

/// An ASCII decimal digit.
pub open spec fn is_digit(b: u8) -> bool {
    48 <= b <= 57
}

/// The position of the first byte at or after `i` that is not a colon.
pub open spec fn trim_colons(s: Seq<u8>, i: int) -> int
    recommends
        0 <= i <= s.len(),
    decreases s.len() - i when 0 <= i <= s.len()
{
    if i < s.len() && s[i] == 58 {
        trim_colons(s, i + 1)
    } else {
        i
    }
}

/// The position of the first non-whitespace byte at or after `i`.
pub open spec fn skip_ws(s: Seq<u8>, i: int) -> int
    recommends
        0 <= i <= s.len(),
    decreases s.len() - i when 0 <= i <= s.len()
{
    if i < s.len() && is_ws(s[i]) {
        skip_ws(s, i + 1)
    } else {
        i
    }
}

/// The position of the first whitespace byte at or after `i`: the end of the
/// word starting there.
pub open spec fn scan_word(s: Seq<u8>, i: int) -> int
    recommends
        0 <= i <= s.len(),
    decreases s.len() - i when 0 <= i <= s.len()
{
    if i < s.len() && !is_ws(s[i]) {
        scan_word(s, i + 1)
    } else {
        i
    }
}

/// The value of a string of digit bytes, most significant first.
pub open spec fn digits_val(t: Seq<u8>) -> int
    decreases t.len(),
{
    if t.len() == 0 {
        0
    } else {
        digits_val(t.drop_last()) * 10 + (t.last() - 48)
    }
}

/// A nonempty string of digit bytes.
pub open spec fn all_digits(t: Seq<u8>) -> bool {
    t.len() > 0 && forall|i: int| 0 <= i < t.len() ==> is_digit(#[trigger] t[i])
}

/// The digits of a signed decimal word: everything after a leading `+` or
/// `-`.
pub open spec fn num_body(t: Seq<u8>) -> Seq<u8> {
    if t.len() > 0 && (t[0] == 43 || t[0] == 45) {
        t.skip(1)
    } else {
        t
    }
}

/// Whether a word is a decimal integer representable as an `i32`: an
/// optional sign, one or more digits, and a value in range.
pub open spec fn num_valid_i32(t: Seq<u8>) -> bool {
    &&& all_digits(num_body(t))
    &&& if t.len() > 0 && t[0] == 45 {
        digits_val(num_body(t)) <= 0x8000_0000
    } else {
        digits_val(num_body(t)) <= i32::MAX
    }
}

/// The value of a decimal integer word.
pub open spec fn num_val(t: Seq<u8>) -> int {
    if t.len() > 0 && t[0] == 45 {
        -digits_val(num_body(t))
    } else {
        digits_val(num_body(t))
    }
}

/// `b` / `board`, `cur` / `cursor`, `q` / `quit`, `clear`, as byte strings.
pub open spec fn word_b() -> Seq<u8> {
    seq![98u8]
}

pub open spec fn word_board() -> Seq<u8> {
    seq![98u8, 111u8, 97u8, 114u8, 100u8]
}

pub open spec fn word_cur() -> Seq<u8> {
    seq![99u8, 117u8, 114u8]
}

pub open spec fn word_cursor() -> Seq<u8> {
    seq![99u8, 117u8, 114u8, 115u8, 111u8, 114u8]
}

pub open spec fn word_q() -> Seq<u8> {
    seq![113u8]
}

pub open spec fn word_quit() -> Seq<u8> {
    seq![113u8, 117u8, 105u8, 116u8]
}

pub open spec fn word_clear() -> Seq<u8> {
    seq![99u8, 108u8, 101u8, 97u8, 114u8]
}

/// What parsing an input's bytes yields.
///
/// After leading colons, the first word picks the command; `board` expects
/// the word `clear`, `cursor` expects two decimal coordinates. An unknown or
/// missing command word is invalid; a malformed or missing coordinate is an
/// invalid argument. Words past the recognized ones are ignored.
pub open spec fn spec_parse(s: Seq<u8>) -> Result<Command, ParseError> {
    let i0 = trim_colons(s, 0);
    let w0s = skip_ws(s, i0);
    let w0e = scan_word(s, w0s);
    let cmd = s.subrange(w0s, w0e);
    if cmd == word_b() || cmd == word_board() {
        let w1s = skip_ws(s, w0e);
        let w1e = scan_word(s, w1s);
        if s.subrange(w1s, w1e) == word_clear() {
            Ok(Command::BoardClear)
        } else {
            Err(ParseError::InvalidCommand)
        }
    } else if cmd == word_cur() || cmd == word_cursor() {
        let w1s = skip_ws(s, w0e);
        let w1e = scan_word(s, w1s);
        let xs = s.subrange(w1s, w1e);
        if !num_valid_i32(xs) {
            Err(ParseError::InvalidArgument)
        } else {
            let w2s = skip_ws(s, w1e);
            let w2e = scan_word(s, w2s);
            let ys = s.subrange(w2s, w2e);
            if !num_valid_i32(ys) {
                Err(ParseError::InvalidArgument)
            } else {
                Ok(Command::Cursor(num_val(xs) as i32, num_val(ys) as i32))
            }
        }
    } else if cmd == word_q() || cmd == word_quit() {
        Ok(Command::Quit)
    } else {
        Err(ParseError::InvalidCommand)
    }
}

/// Whether a byte is ASCII whitespace.
fn is_ws_byte(b: u8) -> (r: bool)
    ensures
        r == is_ws(b),
{
    b == 32 || (9 <= b && b <= 13)
}

/// The position of the first byte at or after `i` that is not a colon.
fn trim_colons_from(bytes: &[u8], i: usize) -> (r: usize)
    requires
        i <= bytes@.len(),
    ensures
        r == trim_colons(bytes@, i as int),
        i <= r <= bytes@.len(),
    decreases bytes@.len() - i,
{
    if i < bytes.len() && bytes[i] == 58 {
        trim_colons_from(bytes, i + 1)
    } else {
        i
    }
}

/// The position of the first non-whitespace byte at or after `i`.
fn skip_ws_from(bytes: &[u8], i: usize) -> (r: usize)
    requires
        i <= bytes@.len(),
    ensures
        r == skip_ws(bytes@, i as int),
        i <= r <= bytes@.len(),
    decreases bytes@.len() - i,
{
    if i < bytes.len() && is_ws_byte(bytes[i]) {
        skip_ws_from(bytes, i + 1)
    } else {
        i
    }
}

/// The end of the word starting at `i`.
fn scan_word_from(bytes: &[u8], i: usize) -> (r: usize)
    requires
        i <= bytes@.len(),
    ensures
        r == scan_word(bytes@, i as int),
        i <= r <= bytes@.len(),
    decreases bytes@.len() - i,
{
    if i < bytes.len() && !is_ws_byte(bytes[i]) {
        scan_word_from(bytes, i + 1)
    } else {
        i
    }
}

/// Whether the word `bytes[s..e]` equals the given word.
fn word_eq(bytes: &[u8], s: usize, e: usize, word: &Vec<u8>) -> (r: bool)
    requires
        s <= e <= bytes@.len(),
    ensures
        r == (bytes@.subrange(s as int, e as int) == word@),
    decreases e - s,
{
    let ghost sub = bytes@.subrange(s as int, e as int);
    if e - s != word.len() {
        proof {
            assert(sub.len() != word@.len());
        }
        return false;
    }
    let n = word.len();
    let mut k: usize = 0;
    while k < n
        invariant
            s <= e <= bytes@.len(),
            n == word@.len(),
            e - s == n,
            sub == bytes@.subrange(s as int, e as int),
            k <= n,
            forall|j: int| 0 <= j < k ==> sub[j] == word@[j],
        decreases n - k,
    {
        if bytes[s + k] != word[k] {
            proof {
                assert(sub[k as int] != word@[k as int]);
            }
            return false;
        }
        k = k + 1;
    }
    proof {
        assert(sub =~= word@);
    }
    true
}

/// Digit strings grow with their length: any prefix is at most the whole.
proof fn lemma_digits_prefix_le(t: Seq<u8>, k: int)
    requires
        0 <= k <= t.len(),
        forall|i: int| 0 <= i < t.len() ==> is_digit(#[trigger] t[i]),
    ensures
        0 <= digits_val(t.take(k)) <= digits_val(t),
    decreases t.len() - k,
{
    if k == t.len() {
        assert(t.take(k) =~= t);
        lemma_digits_nonneg(t);
    } else {
        lemma_digits_prefix_le(t, k + 1);
        lemma_digits_nonneg(t.take(k));
        assert(t.take(k + 1).drop_last() =~= t.take(k));
        assert(digits_val(t.take(k + 1)) == digits_val(t.take(k)) * 10 + (t[k] - 48));
        assert(digits_val(t.take(k)) <= digits_val(t.take(k)) * 10) by (nonlinear_arith)
            requires
                digits_val(t.take(k)) >= 0,
        ;
    }
}

/// The value of a digit string is never negative.
proof fn lemma_digits_nonneg(t: Seq<u8>)
    requires
        forall|i: int| 0 <= i < t.len() ==> is_digit(#[trigger] t[i]),
    ensures
        digits_val(t) >= 0,
    decreases t.len(),
{
    if t.len() > 0 {
        assert(forall|i: int|
            0 <= i < t.drop_last().len() ==> is_digit(#[trigger] t.drop_last()[i]));
        lemma_digits_nonneg(t.drop_last());
        assert(digits_val(t.drop_last()) * 10 >= 0) by (nonlinear_arith)
            requires
                digits_val(t.drop_last()) >= 0,
        ;
    }
}

/// Parse the word `bytes[s..e]` as a decimal `i32`: an optional sign and one
/// or more digits, with the value in range; anything else is `None`.
fn parse_numeric(bytes: &[u8], s: usize, e: usize) -> (r: Option<i32>)
    requires
        s <= e <= bytes@.len(),
    ensures
        r is Some <==> num_valid_i32(bytes@.subrange(s as int, e as int)),
        r matches Some(v) ==> v == num_val(bytes@.subrange(s as int, e as int)),
{
    let ghost t = bytes@.subrange(s as int, e as int);
    if s == e {
        return None;
    }
    let negative = bytes[s] == 45;
    let ds = if bytes[s] == 43 || bytes[s] == 45 {
        s + 1
    } else {
        s
    };
    proof {
        assert(num_body(t) =~= bytes@.subrange(ds as int, e as int));
    }
    let ghost body = num_body(t);
    if ds == e {
        // a bare sign has no digits
        return None;
    }
    let mut acc: i64 = 0;
    let mut k: usize = ds;
    while k < e
        invariant
            s <= ds <= k <= e <= bytes@.len(),
            ds < e,
            body == bytes@.subrange(ds as int, e as int),
            body == num_body(bytes@.subrange(s as int, e as int)),
            body.len() == e - ds,
            forall|j: int| 0 <= j < k - ds ==> is_digit(#[trigger] body[j]),
            acc == digits_val(body.take(k - ds)),
            0 <= acc <= 0x8000_0000,
        decreases e - k,
    {
        let b = bytes[k];
        if b < 48 || b > 57 {
            proof {
                assert(body[k - ds] == b);
                assert(!all_digits(body));
            }
            return None;
        }
        proof {
            assert(body.take(k - ds + 1).drop_last() =~= body.take(k - ds));
            assert(body.take(k - ds + 1).last() == body[k - ds]);
            assert(body[k - ds] == b);
        }
        acc = acc * 10 + ((b - 48) as i64);
        if acc > 0x8000_0000 {
            // too many digits: no i32 holds this magnitude
            proof {
                assert(body.take(e - ds) =~= body);
                if all_digits(body) {
                    lemma_digits_prefix_le(body, k - ds + 1);
                    assert(digits_val(body) >= acc);
                }
            }
            return None;
        }
        k = k + 1;
    }
    proof {
        assert(body.take(e - ds) =~= body);
        assert(all_digits(body));
    }
    if negative {
        Some((-acc) as i32)
    } else {
        if acc > 0x7fff_ffff {
            proof {
                assert(!num_valid_i32(t));
            }
            None
        } else {
            Some(acc as i32)
        }
    }
}

/// Translates provided input into a supported command or returns an error if
/// the command is not recognized. All command inputs start with `:` and are
/// whitespace separated.
pub fn parse(input: &str) -> (r: Result<Command, ParseError>)
    ensures
        r == spec_parse(input.spec_bytes()),
{
    let bytes = input.as_bytes();
    let n = bytes.len();
    let i0 = trim_colons_from(bytes, 0);
    let w0s = skip_ws_from(bytes, i0);
    let w0e = scan_word_from(bytes, w0s);

    let mut w_b: Vec<u8> = Vec::new();
    w_b.push(98);
    let mut w_board: Vec<u8> = Vec::new();
    w_board.push(98);
    w_board.push(111);
    w_board.push(97);
    w_board.push(114);
    w_board.push(100);
    let mut w_cur: Vec<u8> = Vec::new();
    w_cur.push(99);
    w_cur.push(117);
    w_cur.push(114);
    let mut w_cursor: Vec<u8> = Vec::new();
    w_cursor.push(99);
    w_cursor.push(117);
    w_cursor.push(114);
    w_cursor.push(115);
    w_cursor.push(111);
    w_cursor.push(114);
    let mut w_q: Vec<u8> = Vec::new();
    w_q.push(113);
    let mut w_quit: Vec<u8> = Vec::new();
    w_quit.push(113);
    w_quit.push(117);
    w_quit.push(105);
    w_quit.push(116);
    let mut w_clear: Vec<u8> = Vec::new();
    w_clear.push(99);
    w_clear.push(108);
    w_clear.push(101);
    w_clear.push(97);
    w_clear.push(114);
    proof {
        assert(w_b@ =~= word_b());
        assert(w_board@ =~= word_board());
        assert(w_cur@ =~= word_cur());
        assert(w_cursor@ =~= word_cursor());
        assert(w_q@ =~= word_q());
        assert(w_quit@ =~= word_quit());
        assert(w_clear@ =~= word_clear());
    }

    if word_eq(bytes, w0s, w0e, &w_b) || word_eq(bytes, w0s, w0e, &w_board) {
        let w1s = skip_ws_from(bytes, w0e);
        let w1e = scan_word_from(bytes, w1s);
        if word_eq(bytes, w1s, w1e, &w_clear) {
            Ok(Command::BoardClear)
        } else {
            Err(ParseError::InvalidCommand)
        }
    } else if word_eq(bytes, w0s, w0e, &w_cur) || word_eq(bytes, w0s, w0e, &w_cursor) {
        let w1s = skip_ws_from(bytes, w0e);
        let w1e = scan_word_from(bytes, w1s);
        match parse_numeric(bytes, w1s, w1e) {
            None => Err(ParseError::InvalidArgument),
            Some(x) => {
                let w2s = skip_ws_from(bytes, w1e);
                let w2e = scan_word_from(bytes, w2s);
                match parse_numeric(bytes, w2s, w2e) {
                    None => Err(ParseError::InvalidArgument),
                    Some(y) => Ok(Command::Cursor(x, y)),
                }
            },
        }
    } else if word_eq(bytes, w0s, w0e, &w_q) || word_eq(bytes, w0s, w0e, &w_quit) {
        Ok(Command::Quit)
    } else {
        Err(ParseError::InvalidCommand)
    }
}

} // verus!
